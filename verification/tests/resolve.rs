use evasm::error::UndefinedLabelError;
use evasm::parse::Instruction;
use evasm::resolve::{copy_of, SymbolTable};

fn reg(m: &str, r: u8) -> Instruction {
    Instruction::Reg(m.to_string(), r)
}

fn reg_reg(m: &str, r1: u8, r2: u8) -> Instruction {
    Instruction::RegReg(m.to_string(), r1, r2)
}

fn reg_ptr(m: &str, r1: u8, r2: u8) -> Instruction {
    Instruction::RegPtr(m.to_string(), r1, r2)
}

fn reg_cst(m: &str, r: u8, c: u16) -> Instruction {
    Instruction::RegCst(m.to_string(), r, c)
}

fn reg_label(m: &str, r: u8, l: &str) -> Instruction {
    Instruction::RegLabel(m.to_string(), r, l.to_string())
}

fn label(l: &str) -> Instruction {
    Instruction::Label(l.to_string())
}

#[test]
fn labels_in_order_of_declaration() {
    let program = vec![label("A"), reg("PUSH", 1), label("B"), label("A"), reg("POP", 1)];
    assert_eq!(
        Instruction::get_labels(&program),
        vec!["A".to_string(), "B".to_string(), "A".to_string()]
    );
    assert_eq!(Instruction::get_labels(&[]), Vec::<String>::new());
    assert_eq!(Instruction::get_labels(&[reg_label("MOV", 1, "A")]), Vec::<String>::new());
}

#[test]
fn an_address_counts_the_instructions_before_the_label() {
    let program = vec![
        label("START"),
        reg_reg("ADD", 1, 2),
        label("MID"),
        reg("PUSH", 1),
        reg("POP", 1),
        label("END"),
    ];
    let table = Instruction::get_addresses(&program);
    assert_eq!(table.len(), 3);
    assert_eq!(table.get("START"), Some(&0));
    assert_eq!(table.get("MID"), Some(&1));
    assert_eq!(table.get("END"), Some(&3));
    assert_eq!(table.get("OTHER"), None);
}

#[test]
fn labels_take_no_address() {
    let program = vec![reg("PUSH", 1), label("A"), label("B"), label("C"), reg("POP", 1)];
    let table = Instruction::get_addresses(&program);
    assert_eq!(table.get("A"), Some(&1));
    assert_eq!(table.get("B"), Some(&1));
    assert_eq!(table.get("C"), Some(&1));
}

#[test]
fn a_label_reference_declares_nothing() {
    let table = Instruction::get_addresses(&[reg_label("MOV", 1, "A")]);
    assert_eq!(table.len(), 0);
    assert!(!table.contains_key("A"));
}

#[test]
fn a_later_declaration_replaces_an_earlier_one() {
    let program = vec![label("L"), reg("PUSH", 1), label("L"), reg("POP", 1)];
    let table = Instruction::get_addresses(&program);
    assert_eq!(table.len(), 1);
    assert_eq!(table.get("L"), Some(&1));
}

#[test]
fn an_address_keeps_its_low_16_bits() {
    let mut program = Vec::new();
    for _ in 0..65535 {
        program.push(reg("PUSH", 1));
    }
    program.push(label("LAST"));
    program.push(reg("PUSH", 1));
    program.push(label("WRAPPED"));
    program.push(reg("PUSH", 1));
    program.push(label("ONE"));
    let table = Instruction::get_addresses(&program);
    assert_eq!(table.get("LAST"), Some(&65535));
    assert_eq!(table.get("WRAPPED"), Some(&0));
    assert_eq!(table.get("ONE"), Some(&1));
}

#[test]
fn a_program_without_labels_is_resolved_to_itself() {
    let program = vec![
        reg("PUSH", 1),
        reg_reg("ADD", 1, 2),
        reg_ptr("LDR", 3, 4),
        reg_cst("MOV", 5, 600),
        reg("FOO", 200),
    ];
    let table = Instruction::get_addresses(&program);
    assert_eq!(table.len(), 0);
    assert_eq!(Instruction::set_addresses(&program, &table), Ok(program.clone()));
    let mut other = SymbolTable::new();
    other.insert("PUSH".to_string(), 9);
    assert_eq!(Instruction::set_addresses(&program, &other), Ok(program.clone()));
}

#[test]
fn a_backward_reference_is_resolved() {
    let program = vec![label("LOOP"), reg_reg("ADD", 1, 2), reg_label("MOV", 3, "LOOP")];
    let table = Instruction::get_addresses(&program);
    assert_eq!(
        Instruction::set_addresses(&program, &table),
        Ok(vec![reg_reg("ADD", 1, 2), reg_cst("MOV", 3, 0)])
    );
}

#[test]
fn a_forward_reference_is_resolved() {
    let program = vec![
        reg_label("MOV", 3, "END"),
        reg_reg("ADD", 1, 2),
        label("END"),
        reg("PUSH", 3),
    ];
    let table = Instruction::get_addresses(&program);
    assert_eq!(
        Instruction::set_addresses(&program, &table),
        Ok(vec![reg_cst("MOV", 3, 2), reg_reg("ADD", 1, 2), reg("PUSH", 3)])
    );
}

#[test]
fn the_address_of_a_label_is_the_index_of_what_follows_it() {
    let program = vec![
        reg("PUSH", 0),
        label("A"),
        reg("PUSH", 1),
        reg("PUSH", 2),
        label("B"),
        label("C"),
        reg("PUSH", 3),
    ];
    let table = Instruction::get_addresses(&program);
    let resolved = Instruction::set_addresses(&program, &table).unwrap();
    assert_eq!(resolved.len(), 4);
    assert_eq!(resolved[*table.get("A").unwrap() as usize], reg("PUSH", 1));
    assert_eq!(resolved[*table.get("B").unwrap() as usize], reg("PUSH", 3));
    assert_eq!(resolved[*table.get("C").unwrap() as usize], reg("PUSH", 3));
}

#[test]
fn resolution_goes_by_the_table_it_is_given() {
    let mut table = SymbolTable::new();
    table.insert("FAR".to_string(), 0xBEEF);
    assert_eq!(
        Instruction::set_addresses(&[label("FAR"), reg_label("LDR", 7, "FAR")], &table),
        Ok(vec![reg_cst("LDR", 7, 0xBEEF)])
    );
}

#[test]
fn an_undefined_label_is_an_error() {
    let program = vec![reg_label("MOV", 0, "UNDEFINED")];
    let table = Instruction::get_addresses(&program);
    assert_eq!(
        Instruction::set_addresses(&program, &table),
        Err(UndefinedLabelError { name: "UNDEFINED".to_string() })
    );
}

#[test]
fn the_first_undefined_label_is_reported() {
    let program = vec![
        label("KNOWN"),
        reg_label("MOV", 0, "KNOWN"),
        reg_label("MOV", 0, "FIRST"),
        reg_label("MOV", 0, "SECOND"),
    ];
    let table = Instruction::get_addresses(&program);
    assert_eq!(
        Instruction::set_addresses(&program, &table),
        Err(UndefinedLabelError { name: "FIRST".to_string() })
    );
}

#[test]
fn a_mnemonic_is_no_label() {
    let program = vec![label("MOV"), reg_label("MOV", 0, "ADD")];
    let table = Instruction::get_addresses(&program);
    assert_eq!(
        Instruction::set_addresses(&program, &table),
        Err(UndefinedLabelError { name: "ADD".to_string() })
    );
}

#[test]
fn a_copy_equals_its_original() {
    for inst in [
        label("A"),
        reg("PUSH", 1),
        reg_reg("ADD", 1, 2),
        reg_ptr("LDR", 3, 4),
        reg_cst("MOV", 5, 600),
        reg_label("MOV", 7, "A"),
    ] {
        assert_eq!(copy_of(&inst), inst);
    }
}
