//! An assembler for Eva ASM, a small instruction set with sixteen registers.
//!
//! Source text is parsed into instructions, label references are replaced by
//! instruction addresses, and every instruction is encoded as one word of four
//! bytes.

use vstd::prelude::*;
use vstd::utf8::encode_utf8;
use crate::error::{AssembleError, Failure};
use crate::generate::{result_is, assemble_program};
use crate::grammar::program;

pub mod error;
pub mod generate;
pub mod grammar;
pub mod lexer;
pub mod parse;
pub mod resolve;
pub mod text;

verus! {

/// What assembling a source text writes and returns. Where the text has a
/// syntax error, it writes nothing and fails with the error's line and
/// column. Else it assembles the parsed program.
pub open spec fn assemble_text(source: Seq<u8>) -> (Seq<u8>, Result<nat, Failure>) {
    match program(source) {
        Ok(parsed) => assemble_program(parsed),
        Err((line, column)) => (Seq::empty(), Err(Failure::Syntax(line, column))),
    }
}

/// Assembles a source text: parses it, resolves its labels, encodes every
/// instruction and appends the words to `buf`, in order. It returns the
/// number of bytes appended.
///
/// It fails with the first error met. Nothing is appended where the text
/// has a syntax error or refers to a label that it does not declare. At an
/// instruction that the opcode table does not hold, the words of the
/// instructions before it stay in `buf`.
pub fn assemble(input: &str, buf: &mut Vec<u8>) -> (written: Result<usize, AssembleError>)
    ensures
        final(buf)@ == old(buf)@ + assemble_text(encode_utf8(input@)).0,
        result_is(written, assemble_text(encode_utf8(input@)).1),
{
    match parse::parse_input(input) {
        Ok(ast) => generate::assemble(ast, buf),
        Err(e) => {
            assert(buf@ =~= old(buf)@ + Seq::<u8>::empty());
            Err(AssembleError::Syntax(e))
        },
    }
}

/// Assembling is deterministic: two runs on the same text, with the same
/// bytes in the buffer before, leave the same bytes in it and return the
/// same count or the same error.
pub proof fn lemma_assemble_is_deterministic(
    first: &str,
    second: &str,
    before: Seq<u8>,
    first_after: Seq<u8>,
    first_result: Result<usize, AssembleError>,
    second_after: Seq<u8>,
    second_result: Result<usize, AssembleError>,
)
    requires
        first@ == second@,
        first_after == before + assemble_text(encode_utf8(first@)).0,
        result_is(first_result, assemble_text(encode_utf8(first@)).1),
        second_after == before + assemble_text(encode_utf8(second@)).0,
        result_is(second_result, assemble_text(encode_utf8(second@)).1),
    ensures
        first_after == second_after,
        first_result matches Ok(count) ==> second_result == Ok::<usize, AssembleError>(count),
        first_result matches Err(e) ==> second_result is Err && second_result->Err_0@ == e@,
{
}

} // verus!
