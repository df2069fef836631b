//! The instruction model, and the parser that reads it from source text.

use vstd::prelude::*;
use vstd::utf8::encode_utf8;
use crate::error::SyntaxError;
use crate::grammar::{
    column_of,
    constant,
    head,
    item,
    items,
    label_declaration,
    line_break,
    line_of,
    line_start,
    mnemonic,
    more_items,
    name,
    pointer,
    program,
    register,
    Class,
};
use crate::lexer::{read_index, read_name, read_number, scan};

verus! {

/// One line of a program.
#[derive(Clone, PartialEq, Eq, Debug)]
pub enum Instruction {
    /// Marks the address of the instruction that follows; emits no bytes.
    Label(String),
    /// A mnemonic and one register.
    Reg(String, u8),
    /// A mnemonic and two registers.
    RegReg(String, u8, u8),
    /// A mnemonic, a register, and a register used as a memory pointer.
    RegPtr(String, u8, u8),
    /// A mnemonic, a register and a 16-bit constant.
    RegCst(String, u8, u16),
    /// A mnemonic, a register and the name of a label.
    RegLabel(String, u8, String),
}

/// The mathematical value of an [`Instruction`]: names are sequences of
/// characters.
pub enum InstructionView {
    Label(Seq<char>),
    Reg(Seq<char>, u8),
    RegReg(Seq<char>, u8, u8),
    RegPtr(Seq<char>, u8, u8),
    RegCst(Seq<char>, u8, u16),
    RegLabel(Seq<char>, u8, Seq<char>),
}

/// The kind of operands that follow a mnemonic.
#[derive(Clone, Copy, PartialEq, Eq, Debug, Structural)]
pub enum Shape {
    Reg,
    RegReg,
    RegPtr,
    RegCst,
    RegLabel,
}

impl View for Instruction {
    type V = InstructionView;

    open spec fn view(&self) -> InstructionView {
        match *self {
            Instruction::Label(name) => InstructionView::Label(name@),
            Instruction::Reg(m, r) => InstructionView::Reg(m@, r),
            Instruction::RegReg(m, r1, r2) => InstructionView::RegReg(m@, r1, r2),
            Instruction::RegPtr(m, r1, r2) => InstructionView::RegPtr(m@, r1, r2),
            Instruction::RegCst(m, r, c) => InstructionView::RegCst(m@, r, c),
            Instruction::RegLabel(m, r, name) => InstructionView::RegLabel(m@, r, name@),
        }
    }
}

impl DeepView for Instruction {
    type V = InstructionView;

    open spec fn deep_view(&self) -> InstructionView {
        self@
    }
}

impl InstructionView {
    /// The mnemonic and operand shape of an instruction; a label has neither.
    pub open spec fn key(self) -> Option<(Seq<char>, Shape)> {
        match self {
            InstructionView::Label(_) => None,
            InstructionView::Reg(m, _) => Some((m, Shape::Reg)),
            InstructionView::RegReg(m, _, _) => Some((m, Shape::RegReg)),
            InstructionView::RegPtr(m, _, _) => Some((m, Shape::RegPtr)),
            InstructionView::RegCst(m, _, _) => Some((m, Shape::RegCst)),
            InstructionView::RegLabel(m, _, _) => Some((m, Shape::RegLabel)),
        }
    }
}

/// Reads a register at `pos`.
fn parse_register(s: &[u8], pos: usize) -> (found: Option<(u8, usize)>)
    ensures
        match found {
            Some((reg, end)) => register(s@, pos as int) == Some((reg, end as int)) && pos < end
                <= s.len(),
            None => register(s@, pos as int) is None,
        },
{
    let start = scan(s, pos, Class::Blank);
    if start < s.len() && (s[start] == ('R' as u8) || s[start] == ('r' as u8)) {
        let first = scan(s, start + 1, Class::Blank);
        let last = scan(s, first, Class::Digit);
        if first < last {
            let reg = read_index(s, first, last);
            let end = scan(s, last, Class::Blank);
            Some((reg, end))
        } else {
            None
        }
    } else {
        None
    }
}

/// Reads a constant at `pos`.
fn parse_constant(s: &[u8], pos: usize) -> (found: Option<(u16, usize)>)
    ensures
        match found {
            Some((cst, end)) => constant(s@, pos as int) == Some((cst, end as int)) && pos < end
                <= s.len(),
            None => constant(s@, pos as int) is None,
        },
{
    let start = scan(s, pos, Class::Blank);
    if !(start < s.len() && s[start] == ('#' as u8)) {
        return None;
    }
    let zero = scan(s, start + 1, Class::Blank);
    if s.len() - zero >= 2 && s[zero] == ('0' as u8) && (s[zero + 1] == ('x' as u8) || s[zero + 1]
        == ('X' as u8)) {
        let first = zero + 2;
        let last = scan(s, first, Class::HexDigit);
        if first < last {
            return match read_number(s, first, last, 16) {
                Some(cst) => Some((cst, scan(s, last, Class::Blank))),
                None => None,
            };
        }
    }
    let last = scan(s, zero, Class::Digit);
    if zero < last {
        match read_number(s, zero, last, 10) {
            Some(cst) => Some((cst, scan(s, last, Class::Blank))),
            None => None,
        }
    } else {
        None
    }
}

/// Reads the name of a label at `pos`.
fn parse_name(s: &[u8], pos: usize) -> (found: Option<(String, usize)>)
    ensures
        match found {
            Some((label, end)) => name(s@, pos as int) == Some((label@, end as int)) && pos < end
                <= s.len(),
            None => name(s@, pos as int) is None,
        },
{
    let first = scan(s, pos, Class::Blank);
    if first < s.len() && (Class::Letter.test(s[first]) || s[first] == ('_' as u8)) {
        let last = scan(s, first + 1, Class::Word);
        let label = read_name(s, first, last);
        let end = scan(s, last, Class::Blank);
        Some((label, end))
    } else {
        None
    }
}

/// Reads a mnemonic at `pos`.
fn parse_mnemonic(s: &[u8], pos: usize) -> (found: Option<(String, usize)>)
    ensures
        match found {
            Some((m, end)) => mnemonic(s@, pos as int) == Some((m@, end as int)) && pos < end
                <= s.len(),
            None => mnemonic(s@, pos as int) is None,
        },
{
    let first = scan(s, pos, Class::Blank);
    let last = scan(s, first, Class::Letter);
    if first < last {
        let m = read_name(s, first, last);
        let end = scan(s, last, Class::Blank);
        Some((m, end))
    } else {
        None
    }
}

/// Reads a register in square brackets at `pos`.
fn parse_pointer(s: &[u8], pos: usize) -> (found: Option<(u8, usize)>)
    ensures
        match found {
            Some((reg, end)) => pointer(s@, pos as int) == Some((reg, end as int)) && pos < end
                <= s.len(),
            None => pointer(s@, pos as int) is None,
        },
{
    let open = scan(s, pos, Class::Blank);
    if !(open < s.len() && s[open] == ('[' as u8)) {
        return None;
    }
    match parse_register(s, open + 1) {
        Some((reg, close)) => {
            if close < s.len() && s[close] == (']' as u8) {
                Some((reg, scan(s, close + 1, Class::Blank)))
            } else {
                None
            }
        },
        None => None,
    }
}

/// Reads the declaration of a label at `pos`.
fn parse_label_declaration(s: &[u8], pos: usize) -> (found: Option<(Instruction, usize)>)
    ensures
        match found {
            Some((inst, end)) => label_declaration(s@, pos as int) == Some((inst@, end as int))
                && pos < end <= s.len(),
            None => label_declaration(s@, pos as int) is None,
        },
{
    match parse_name(s, pos) {
        Some((label, colon)) => {
            if colon < s.len() && s[colon] == (':' as u8) {
                Some((Instruction::Label(label), scan(s, colon + 1, Class::Blank)))
            } else {
                None
            }
        },
        None => None,
    }
}

/// Reads one item at `pos`: an instruction, or else the declaration of a
/// label.
fn parse_item(s: &[u8], pos: usize) -> (found: Option<(Instruction, usize)>)
    ensures
        match found {
            Some((inst, end)) => item(s@, pos as int) == Some((inst@, end as int)) && pos < end
                <= s.len(),
            None => item(s@, pos as int) is None,
        },
{
    let (m, r1, end) = match parse_mnemonic(s, pos) {
        Some((m, after)) => match parse_register(s, after) {
            Some((r1, end)) => (m, r1, end),
            None => {
                return parse_label_declaration(s, pos);
            },
        },
        None => {
            return parse_label_declaration(s, pos);
        },
    };
    assert(head(s@, pos as int) == Some((m@, r1, end as int)));
    if !(end < s.len() && s[end] == (',' as u8)) {
        return Some((Instruction::Reg(m, r1), end));
    }
    let after = end + 1;
    if let Some((r2, end2)) = parse_register(s, after) {
        return Some((Instruction::RegReg(m, r1, r2), end2));
    }
    if let Some((cst, end2)) = parse_constant(s, after) {
        return Some((Instruction::RegCst(m, r1, cst), end2));
    }
    if let Some((label, end2)) = parse_name(s, after) {
        return Some((Instruction::RegLabel(m, r1, label), end2));
    }
    if let Some((r2, end2)) = parse_pointer(s, after) {
        return Some((Instruction::RegPtr(m, r1, r2), end2));
    }
    Some((Instruction::Reg(m, r1), end))
}

/// Reads a line break at `pos`.
fn parse_line_break(s: &[u8], pos: usize) -> (found: Option<usize>)
    ensures
        match found {
            Some(end) => line_break(s@, pos as int) == Some(end as int) && pos < end <= s.len(),
            None => line_break(s@, pos as int) is None,
        },
{
    let feed = scan(s, pos, Class::Blank);
    if feed < s.len() && s[feed] == ('\n' as u8) {
        let end = scan(s, feed, Class::Gap);
        proof {
            crate::grammar::lemma_line_break_advances(s@, pos as int);
        }
        Some(end)
    } else {
        None
    }
}

/// The line and the column of a position, both counted from 1.
fn locate(s: &[u8], pos: usize) -> (place: (usize, usize))
    requires
        pos < s.len(),
    ensures
        place.0 == line_of(s@, pos as int),
        place.1 == column_of(s@, pos as int),
{
    let mut line: usize = 1;
    let mut start: usize = 0;
    let mut i: usize = 0;
    while i < pos
        invariant
            i <= pos < s.len(),
            line == line_of(s@, i as int),
            line <= i + 1,
            start == line_start(s@, i as int),
            start <= i,
        decreases pos - i,
    {
        proof {
            let before = s@.take(i as int);
            assert(s@.take(i + 1) =~= before.push(s@[i as int]));
            before.lemma_filter_len_push(|b: u8| b == ('\n' as u8), s@[i as int]);
        }
        if s[i] == ('\n' as u8) {
            line += 1;
            start = i + 1;
        }
        i += 1;
    }
    (line, pos - start + 1)
}

/// Parses a source text into its instructions and label declarations, in
/// the order of the text.
///
/// The text must be items with line breaks between them, and may end in line
/// breaks. Any other text is a syntax error, reported at the first byte that
/// does not belong to it.
pub fn parse_input(input: &str) -> (parsed: Result<Vec<Instruction>, SyntaxError>)
    ensures
        match parsed {
            Ok(instructions) => program(encode_utf8(input@)) == Ok::<
                Seq<InstructionView>,
                (nat, nat),
            >(instructions.deep_view()),
            Err(e) => program(encode_utf8(input@)) == Err::<Seq<InstructionView>, (nat, nat)>(
                (e.line as nat, e.column as nat),
            ),
        },
{
    let s = input.as_bytes();
    let mut out: Vec<Instruction> = Vec::new();
    let mut pos: usize = 0;
    match parse_item(s, 0) {
        Some((inst, end)) => {
            out.push(inst);
            pos = end;
            assert(out.deep_view() =~= seq![inst@]);
            loop
                invariant
                    pos <= s.len(),
                    item(s@, 0) is Some,
                    items(s@).0 == out.deep_view() + more_items(s@, pos as int).0,
                    items(s@).1 == more_items(s@, pos as int).1,
                ensures
                    items(s@) == (out.deep_view(), pos as int),
                decreases s.len() - pos,
            {
                let start = match parse_line_break(s, pos) {
                    Some(start) => start,
                    None => {
                        break ;
                    },
                };
                match parse_item(s, start) {
                    Some((inst, end)) => {
                        let ghost before = out.deep_view();
                        out.push(inst);
                        assert(out.deep_view() =~= before + seq![inst@]);
                        assert(before + (seq![inst@] + more_items(s@, end as int).0) =~= (before
                            + seq![inst@]) + more_items(s@, end as int).0);
                        pos = end;
                    },
                    None => {
                        break ;
                    },
                }
            }
        },
        None => {
            assert(out.deep_view() =~= Seq::<InstructionView>::empty());
        },
    }
    assert(items(s@) == (out.deep_view(), pos as int));
    let stop = match parse_line_break(s, pos) {
        Some(after) => after,
        None => pos,
    };
    if stop == s.len() {
        Ok(out)
    } else {
        let token = scan(s, stop, Class::Blank);
        let place = locate(
            s,
            if token < s.len() {
                token
            } else {
                stop
            },
        );
        Err(SyntaxError { line: place.0, column: place.1 })
    }
}

} // verus!
