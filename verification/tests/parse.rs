use evasm::error::SyntaxError;
use evasm::parse::{parse_input, Instruction};

fn reg(m: &str, r: u8) -> Instruction {
    Instruction::Reg(m.to_string(), r)
}

fn reg_reg(m: &str, r1: u8, r2: u8) -> Instruction {
    Instruction::RegReg(m.to_string(), r1, r2)
}

fn reg_ptr(m: &str, r1: u8, r2: u8) -> Instruction {
    Instruction::RegPtr(m.to_string(), r1, r2)
}

fn reg_cst(m: &str, r: u8, c: u16) -> Instruction {
    Instruction::RegCst(m.to_string(), r, c)
}

fn reg_label(m: &str, r: u8, l: &str) -> Instruction {
    Instruction::RegLabel(m.to_string(), r, l.to_string())
}

fn label(l: &str) -> Instruction {
    Instruction::Label(l.to_string())
}

fn error(line: usize, column: usize) -> Result<Vec<Instruction>, SyntaxError> {
    Err(SyntaxError { line, column })
}

#[test]
fn parses_two_registers() {
    assert_eq!(parse_input("ADD R1, R2\n"), Ok(vec![reg_reg("ADD", 1, 2)]));
}

#[test]
fn parses_one_register() {
    assert_eq!(parse_input("PUSH R7\n"), Ok(vec![reg("PUSH", 7)]));
}

#[test]
fn parses_register_and_constant() {
    assert_eq!(parse_input("MOV R0, #10\n"), Ok(vec![reg_cst("MOV", 0, 10)]));
}

#[test]
fn parses_register_and_pointer() {
    assert_eq!(parse_input("LDR R1, [R2]\n"), Ok(vec![reg_ptr("LDR", 1, 2)]));
    assert_eq!(parse_input("STR R3,[ R4 ] \n"), Ok(vec![reg_ptr("STR", 3, 4)]));
}

#[test]
fn parses_register_and_label() {
    assert_eq!(parse_input("MOV R3, LOOP\n"), Ok(vec![reg_label("MOV", 3, "LOOP")]));
    assert_eq!(parse_input("MOV R3, _tmp1\n"), Ok(vec![reg_label("MOV", 3, "_TMP1")]));
}

#[test]
fn parses_label_declaration() {
    assert_eq!(parse_input("LOOP:\n"), Ok(vec![label("LOOP")]));
    assert_eq!(parse_input("loop :  \n"), Ok(vec![label("LOOP")]));
    assert_eq!(parse_input("_a1:"), Ok(vec![label("_A1")]));
}

#[test]
fn a_label_may_look_like_a_register() {
    assert_eq!(parse_input("R1:\n"), Ok(vec![label("R1")]));
    assert_eq!(parse_input("MOV R0, RX\n"), Ok(vec![reg_label("MOV", 0, "RX")]));
}

#[test]
fn two_registers_win_over_one_register() {
    assert_eq!(parse_input("MOV R1, R2"), Ok(vec![reg_reg("MOV", 1, 2)]));
}

#[test]
fn a_register_operand_is_not_extended_to_a_label() {
    assert_eq!(parse_input("MOV R1, R2X"), error(1, 11));
}

#[test]
fn keeps_source_order() {
    let text = "LOOP:\nADD R1,R2\nMOV R3,LOOP\n";
    assert_eq!(
        parse_input(text),
        Ok(vec![label("LOOP"), reg_reg("ADD", 1, 2), reg_label("MOV", 3, "LOOP")])
    );
}

#[test]
fn is_case_insensitive() {
    assert_eq!(parse_input("add r1, r2\n"), parse_input("ADD R1, R2\n"));
    assert_eq!(parse_input("add r1, r2\n"), Ok(vec![reg_reg("ADD", 1, 2)]));
    assert_eq!(parse_input("Mov r3, Loop\n"), Ok(vec![reg_label("MOV", 3, "LOOP")]));
    assert_eq!(parse_input("lOoP:\n"), Ok(vec![label("LOOP")]));
}

#[test]
fn blanks_do_not_matter_within_a_line() {
    assert_eq!(parse_input("\tADD\tR1,\tR2\n"), Ok(vec![reg_reg("ADD", 1, 2)]));
    assert_eq!(parse_input("   ADD   R1  ,  R2   \n"), Ok(vec![reg_reg("ADD", 1, 2)]));
    assert_eq!(parse_input("MOV R0,#10"), Ok(vec![reg_cst("MOV", 0, 10)]));
    assert_eq!(parse_input("MOV R0, # 10"), Ok(vec![reg_cst("MOV", 0, 10)]));
    assert_eq!(parse_input("PUSH R 7"), Ok(vec![reg("PUSH", 7)]));
}

#[test]
fn a_mnemonic_needs_a_blank_before_its_register() {
    assert_eq!(parse_input("PUSHR7"), error(1, 1));
}

#[test]
fn blank_lines_between_instructions_are_ignored() {
    let text = "ADD R1,R2\n  \n\n\t\nSUB R3,#4";
    assert_eq!(parse_input(text), Ok(vec![reg_reg("ADD", 1, 2), reg_cst("SUB", 3, 4)]));
}

#[test]
fn the_last_line_may_end_with_or_without_line_feeds() {
    assert_eq!(parse_input("ADD R1, R2"), Ok(vec![reg_reg("ADD", 1, 2)]));
    assert_eq!(parse_input("ADD R1, R2\n\n\n"), Ok(vec![reg_reg("ADD", 1, 2)]));
    assert_eq!(parse_input("ADD R1, R2\n  \n "), Ok(vec![reg_reg("ADD", 1, 2)]));
}

#[test]
fn a_text_without_items_is_an_empty_program() {
    assert_eq!(parse_input(""), Ok(vec![]));
    assert_eq!(parse_input("\n\n"), Ok(vec![]));
    assert_eq!(parse_input("  \n"), Ok(vec![]));
}

#[test]
fn blanks_alone_are_no_program() {
    assert_eq!(parse_input("   "), error(1, 1));
}

#[test]
fn a_text_may_not_start_with_a_line_break() {
    assert_eq!(parse_input("\nADD R1, R2\n"), error(2, 1));
}

#[test]
fn decimal_constants() {
    assert_eq!(parse_input("MOV R0, #0"), Ok(vec![reg_cst("MOV", 0, 0)]));
    assert_eq!(parse_input("MOV R0, #007"), Ok(vec![reg_cst("MOV", 0, 7)]));
    assert_eq!(parse_input("MOV R0, #65535"), Ok(vec![reg_cst("MOV", 0, 65535)]));
}

#[test]
fn hexadecimal_constants() {
    assert_eq!(parse_input("MOV R0, #0x1F"), Ok(vec![reg_cst("MOV", 0, 31)]));
    assert_eq!(parse_input("MOV R0, #0X1f"), Ok(vec![reg_cst("MOV", 0, 31)]));
    assert_eq!(parse_input("MOV R0, #0xabcd"), Ok(vec![reg_cst("MOV", 0, 0xABCD)]));
    assert_eq!(parse_input("MOV R0, #0xFFFF"), Ok(vec![reg_cst("MOV", 0, 0xFFFF)]));
    assert_eq!(parse_input("MOV R0, #0x0000A"), Ok(vec![reg_cst("MOV", 0, 10)]));
}

#[test]
fn a_constant_must_fit_in_16_bits() {
    assert_eq!(parse_input("MOV R0, #65536"), error(1, 7));
    assert_eq!(parse_input("MOV R0, #70000"), error(1, 7));
    assert_eq!(parse_input("MOV R0, #0x10000"), error(1, 7));
    assert_eq!(parse_input("MOV R0, #99999999999999999999999999"), error(1, 7));
}

#[test]
fn a_malformed_number_is_a_syntax_error() {
    assert_eq!(parse_input("MOV R0, #\n"), error(1, 7));
    assert_eq!(parse_input("MOV R0, #0x"), error(1, 11));
    assert_eq!(parse_input("MOV R0, #12AB"), error(1, 12));
    assert_eq!(parse_input("MOV R0, #-1"), error(1, 7));
}

#[test]
fn register_index_15() {
    assert_eq!(parse_input("ADD R15, R15"), Ok(vec![reg_reg("ADD", 15, 15)]));
}

#[test]
fn a_register_index_above_15_is_no_syntax_error() {
    assert_eq!(parse_input("PUSH R16"), Ok(vec![reg("PUSH", 16)]));
    assert_eq!(parse_input("PUSH R255"), Ok(vec![reg("PUSH", 255)]));
}

#[test]
fn a_register_index_keeps_its_low_8_bits() {
    assert_eq!(parse_input("PUSH R256"), Ok(vec![reg("PUSH", 0)]));
    assert_eq!(parse_input("PUSH R300"), Ok(vec![reg("PUSH", 44)]));
    assert_eq!(parse_input("PUSH R18446744073709551616"), Ok(vec![reg("PUSH", 0)]));
    assert_eq!(parse_input("PUSH R99999999999999999999999"), Ok(vec![reg("PUSH", 255)]));
}

#[test]
fn an_unknown_mnemonic_parses() {
    assert_eq!(parse_input("FOO R1\n"), Ok(vec![reg("FOO", 1)]));
}

#[test]
fn a_mnemonic_alone_is_a_syntax_error() {
    assert_eq!(parse_input("FOO\n"), error(1, 1));
    assert_eq!(parse_input("MOV"), error(1, 1));
}

#[test]
fn a_missing_second_operand_is_a_syntax_error() {
    assert_eq!(parse_input("MOV R0,\n"), error(1, 7));
}

#[test]
fn an_unterminated_bracket_is_a_syntax_error() {
    assert_eq!(parse_input("LDR R1, [R2\n"), error(1, 7));
    assert_eq!(parse_input("LDR R1, [\n"), error(1, 7));
    assert_eq!(parse_input("LDR R1, [R2] ]\n"), error(1, 14));
}

#[test]
fn text_behind_an_instruction_is_a_syntax_error() {
    assert_eq!(parse_input("ADD R1, R2 X"), error(1, 12));
    assert_eq!(parse_input("MOV R1, R2, R3"), error(1, 11));
    assert_eq!(parse_input("ADD R1,R2 SUB R3,R4"), error(1, 11));
    assert_eq!(parse_input("ADD R1:"), error(1, 7));
}

#[test]
fn a_syntax_error_reports_line_and_column() {
    assert_eq!(parse_input("ADD R1,R2\n123\n"), error(2, 1));
    assert_eq!(parse_input("ADD R1,R2\nFOO\n"), error(2, 1));
    assert_eq!(parse_input("ADD R1,R2\nSUB R3,R4\n  BAD\n"), error(3, 3));
    assert_eq!(parse_input("ADD R1,R2\n\n\n\tSUB R3,R4 !\n"), error(4, 12));
}

#[test]
fn an_error_in_the_first_line_is_reported_at_its_first_token() {
    assert_eq!(parse_input("  FOO"), error(1, 3));
    assert_eq!(parse_input("\tFOO"), error(1, 2));
    assert_eq!(parse_input("1abc:"), error(1, 1));
}

#[test]
fn a_carriage_return_is_no_blank() {
    assert_eq!(parse_input("ADD R1,R2\r\n"), error(1, 10));
}

#[test]
fn bytes_outside_ascii_are_a_syntax_error() {
    assert_eq!(parse_input("ADD R1, R2 \u{e9}"), error(1, 12));
    assert_eq!(parse_input("\u{e9}"), error(1, 1));
    assert_eq!(parse_input("MOV R0, caf\u{e9}\n"), error(1, 12));
}

#[test]
fn parsing_does_not_consult_the_opcode_table() {
    assert_eq!(parse_input("PUSH R1, R2"), Ok(vec![reg_reg("PUSH", 1, 2)]));
    assert_eq!(parse_input("ADD R1"), Ok(vec![reg("ADD", 1)]));
}
