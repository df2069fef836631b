//! Instructions as source text.

use vstd::prelude::*;
use vstd::string::StringExecFns;
use crate::parse::{Instruction, InstructionView};

verus! {

/// The character of a decimal digit.
pub open spec fn digit_char(digit: nat) -> char {
    (('0' as u8) + digit) as char
}

/// A number in decimal digits, without leading zeros.
pub open spec fn decimal_text(n: nat) -> Seq<char>
    decreases n,
{
    if n < 10 {
        seq![digit_char(n)]
    } else {
        decimal_text(n / 10).push(digit_char(n % 10))
    }
}

/// A register as it is written: `R` and its index.
pub open spec fn register_text(reg: u8) -> Seq<char> {
    seq!['R'] + decimal_text(reg as nat)
}

/// The line of source text that stands for an instruction. A label is its
/// name and a colon. An instruction is a tab, the mnemonic, a tab, and the
/// operands with a comma and a space between them; before the operands of
/// an instruction with a constant stands a carriage return in place of the
/// tab.
pub open spec fn text_of(inst: InstructionView) -> Seq<char> {
    match inst {
        InstructionView::Label(name) => name + seq![':'],
        InstructionView::Reg(m, reg) => seq!['\t'] + m + seq!['\t'] + register_text(reg),
        InstructionView::RegReg(m, r1, r2) => seq!['\t'] + m + seq!['\t'] + register_text(r1)
            + seq![',', ' '] + register_text(r2),
        InstructionView::RegPtr(m, r1, r2) => seq!['\t'] + m + seq!['\t'] + register_text(r1)
            + seq![',', ' ', '['] + register_text(r2) + seq![']'],
        InstructionView::RegCst(m, reg, cst) => seq!['\t'] + m + seq!['\r'] + register_text(reg)
            + seq![',', ' ', '#'] + decimal_text(cst as nat),
        InstructionView::RegLabel(m, reg, name) => seq!['\t'] + m + seq!['\t'] + register_text(reg)
            + seq![',', ' '] + name,
    }
}

/// Appends a number in decimal digits.
fn push_decimal(text: &mut String, n: u16)
    ensures
        final(text)@ == old(text)@ + decimal_text(n as nat),
    decreases n,
{
    if n >= 10 {
        push_decimal(text, n / 10);
    }
    let digit = (n % 10) as u8;
    text.push((('0' as u8) + digit) as char);
    assert(text@ =~= old(text)@ + decimal_text(n as nat));
}

/// Appends a register as it is written.
fn push_register(text: &mut String, reg: u8)
    ensures
        final(text)@ == old(text)@ + register_text(reg),
{
    text.push('R');
    push_decimal(text, reg as u16);
    assert(text@ =~= old(text)@ + register_text(reg));
}

impl Instruction {
    /// The line of source text that stands for the instruction.
    pub fn to_text(&self) -> (text: String)
        ensures
            text@ == text_of(self@),
    {
        let mut text = String::new();
        match self {
            Instruction::Label(name) => {
                text.append(name.as_str());
                text.push(':');
            },
            Instruction::Reg(m, reg) => {
                text.push('\t');
                text.append(m.as_str());
                text.push('\t');
                push_register(&mut text, *reg);
            },
            Instruction::RegReg(m, r1, r2) => {
                text.push('\t');
                text.append(m.as_str());
                text.push('\t');
                push_register(&mut text, *r1);
                text.push(',');
                text.push(' ');
                push_register(&mut text, *r2);
            },
            Instruction::RegPtr(m, r1, r2) => {
                text.push('\t');
                text.append(m.as_str());
                text.push('\t');
                push_register(&mut text, *r1);
                text.push(',');
                text.push(' ');
                text.push('[');
                push_register(&mut text, *r2);
                text.push(']');
            },
            Instruction::RegCst(m, reg, cst) => {
                text.push('\t');
                text.append(m.as_str());
                text.push('\r');
                push_register(&mut text, *reg);
                text.push(',');
                text.push(' ');
                text.push('#');
                push_decimal(&mut text, *cst);
            },
            Instruction::RegLabel(m, reg, name) => {
                text.push('\t');
                text.append(m.as_str());
                text.push('\t');
                push_register(&mut text, *reg);
                text.push(',');
                text.push(' ');
                text.append(name.as_str());
            },
        }
        assert(text@ =~= text_of(self@));
        text
    }
}

} // verus!
