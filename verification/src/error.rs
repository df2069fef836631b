//! What can go wrong while a program is assembled.

use vstd::prelude::*;
use crate::parse::Shape;

verus! {

/// The source text does not match the grammar.
#[derive(Clone, Copy, PartialEq, Eq, Debug)]
pub struct SyntaxError {
    /// The line of the first byte that could not be matched, counted from 1.
    pub line: usize,
    /// The column of that byte in its line, counted from 1.
    pub column: usize,
}

/// An operand names a label that the program never declares.
#[derive(Clone, PartialEq, Eq, Debug)]
pub struct UndefinedLabelError {
    /// The name of the label.
    pub name: String,
}

/// The opcode table has no entry for a mnemonic with a shape.
#[derive(Clone, PartialEq, Eq, Debug)]
pub struct UnsupportedInstructionError {
    /// The mnemonic of the instruction.
    pub mnemonic: String,
    /// The shape of its operands.
    pub shape: Shape,
}

/// Why a program could not be assembled.
#[derive(Clone, PartialEq, Eq, Debug)]
pub enum AssembleError {
    Syntax(SyntaxError),
    UndefinedLabel(UndefinedLabelError),
    UnsupportedInstruction(UnsupportedInstructionError),
}

/// The mathematical value of an [`AssembleError`].
pub enum Failure {
    /// A syntax error at a line and a column.
    Syntax(nat, nat),
    /// A reference to an undeclared label, with the label's name.
    UndefinedLabel(Seq<char>),
    /// A mnemonic that the opcode table does not have with a shape.
    UnsupportedInstruction(Seq<char>, Shape),
}

impl View for SyntaxError {
    type V = Failure;

    open spec fn view(&self) -> Failure {
        Failure::Syntax(self.line as nat, self.column as nat)
    }
}

impl View for UndefinedLabelError {
    type V = Failure;

    open spec fn view(&self) -> Failure {
        Failure::UndefinedLabel(self.name@)
    }
}

impl View for UnsupportedInstructionError {
    type V = Failure;

    open spec fn view(&self) -> Failure {
        Failure::UnsupportedInstruction(self.mnemonic@, self.shape)
    }
}

impl View for AssembleError {
    type V = Failure;

    open spec fn view(&self) -> Failure {
        match *self {
            AssembleError::Syntax(e) => e@,
            AssembleError::UndefinedLabel(e) => e@,
            AssembleError::UnsupportedInstruction(e) => e@,
        }
    }
}

} // verus!
