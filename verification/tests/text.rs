use evasm::parse::Instruction;

#[test]
fn a_label_as_text() {
    assert_eq!(Instruction::Label("LOOP".to_string()).to_text(), "LOOP:");
}

#[test]
fn one_register_as_text() {
    assert_eq!(Instruction::Reg("PUSH".to_string(), 7).to_text(), "\tPUSH\tR7");
    assert_eq!(Instruction::Reg("PUSH".to_string(), 0).to_text(), "\tPUSH\tR0");
    assert_eq!(Instruction::Reg("PUSH".to_string(), 255).to_text(), "\tPUSH\tR255");
}

#[test]
fn two_registers_as_text() {
    assert_eq!(Instruction::RegReg("ADD".to_string(), 1, 2).to_text(), "\tADD\tR1, R2");
    assert_eq!(Instruction::RegReg("ADD".to_string(), 10, 15).to_text(), "\tADD\tR10, R15");
}

#[test]
fn a_pointer_as_text() {
    assert_eq!(Instruction::RegPtr("LDR".to_string(), 1, 2).to_text(), "\tLDR\tR1, [R2]");
}

#[test]
fn a_constant_as_text() {
    assert_eq!(Instruction::RegCst("MOV".to_string(), 0, 10).to_text(), "\tMOV\rR0, #10");
    assert_eq!(Instruction::RegCst("MOV".to_string(), 3, 0).to_text(), "\tMOV\rR3, #0");
    assert_eq!(Instruction::RegCst("MOV".to_string(), 3, 65535).to_text(), "\tMOV\rR3, #65535");
    assert_eq!(Instruction::RegCst("MOV".to_string(), 3, 1000).to_text(), "\tMOV\rR3, #1000");
}

#[test]
fn a_label_reference_as_text() {
    assert_eq!(
        Instruction::RegLabel("MOV".to_string(), 3, "LOOP".to_string()).to_text(),
        "\tMOV\tR3, LOOP"
    );
}
