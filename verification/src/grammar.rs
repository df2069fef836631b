//! The grammar of the source text, as functions on its bytes.
//!
//! Every rule is a function of the text and a position. It yields what the
//! rule matched and the position behind the match, or `None` where the rule
//! does not match at that position. A rule matches as much as it can, and
//! where rules are tried in turn, the first that matches stands.

use vstd::prelude::*;
use crate::parse::InstructionView;

verus! {

/// The classes of bytes that the grammar speaks of.
#[derive(Clone, Copy, PartialEq, Eq, Debug)]
pub enum Class {
    /// A space or a tab.
    Blank,
    /// A space, a tab or a line feed.
    Gap,
    /// A decimal digit.
    Digit,
    /// A hexadecimal digit, in either case.
    HexDigit,
    /// An ASCII letter, in either case.
    Letter,
    /// An ASCII letter, a decimal digit or an underscore.
    Word,
}

pub open spec fn is_blank(b: u8) -> bool {
    b == (' ' as u8) || b == ('\t' as u8)
}

pub open spec fn is_digit(b: u8) -> bool {
    ('0' as u8) <= b <= ('9' as u8)
}

pub open spec fn is_hex_digit(b: u8) -> bool {
    is_digit(b) || ('a' as u8) <= b <= ('f' as u8) || ('A' as u8) <= b <= ('F' as u8)
}

pub open spec fn is_letter(b: u8) -> bool {
    ('a' as u8) <= b <= ('z' as u8) || ('A' as u8) <= b <= ('Z' as u8)
}

pub open spec fn is_word(b: u8) -> bool {
    is_letter(b) || is_digit(b) || b == ('_' as u8)
}

impl Class {
    /// Whether a byte belongs to the class.
    pub open spec fn has(self, b: u8) -> bool {
        match self {
            Class::Blank => is_blank(b),
            Class::Gap => is_blank(b) || b == ('\n' as u8),
            Class::Digit => is_digit(b),
            Class::HexDigit => is_hex_digit(b),
            Class::Letter => is_letter(b),
            Class::Word => is_word(b),
        }
    }

    /// Tests whether a byte belongs to the class.
    pub fn test(self, b: u8) -> (yes: bool)
        ensures
            yes == self.has(b),
    {
        match self {
            Class::Blank => b == (' ' as u8) || b == ('\t' as u8),
            Class::Gap => b == (' ' as u8) || b == ('\t' as u8) || b == ('\n' as u8),
            Class::Digit => ('0' as u8) <= b && b <= ('9' as u8),
            Class::HexDigit => (('0' as u8) <= b && b <= ('9' as u8)) || (('a' as u8) <= b && b <= ('f' as u8)) || (('A' as u8) <= b
                && b <= ('F' as u8)),
            Class::Letter => (('a' as u8) <= b && b <= ('z' as u8)) || (('A' as u8) <= b && b <= ('Z' as u8)),
            Class::Word => (('a' as u8) <= b && b <= ('z' as u8)) || (('A' as u8) <= b && b <= ('Z' as u8)) || (('0' as u8) <= b && b
                <= ('9' as u8)) || b == ('_' as u8),
        }
    }
}

/// The position behind the longest run of bytes of one class that starts at
/// `pos`.
pub open spec fn run_end(s: Seq<u8>, pos: int, class: Class) -> int
    decreases s.len() - pos,
{
    if 0 <= pos < s.len() && class.has(s[pos]) {
        run_end(s, pos + 1, class)
    } else {
        pos
    }
}

/// A letter in upper case; any other byte as it is.
pub open spec fn upper(b: u8) -> u8 {
    if ('a' as u8) <= b <= ('z' as u8) {
        (b - 32) as u8
    } else {
        b
    }
}

/// The characters of a name: its bytes, the letters in upper case.
pub open spec fn upper_text(bytes: Seq<u8>) -> Seq<char> {
    bytes.map_values(|b: u8| upper(b) as char)
}

/// The value of one digit, decimal or hexadecimal.
pub open spec fn digit_value(b: u8) -> nat {
    if is_digit(b) {
        (b - ('0' as u8)) as nat
    } else if ('a' as u8) <= b <= ('f' as u8) {
        (b - ('a' as u8) + 10) as nat
    } else if ('A' as u8) <= b <= ('F' as u8) {
        (b - ('A' as u8) + 10) as nat
    } else {
        0
    }
}

/// The number that a sequence of digits denotes in a base.
pub open spec fn number_value(digits: Seq<u8>, base: nat) -> nat
    decreases digits.len(),
{
    if digits.len() == 0 {
        0
    } else {
        number_value(digits.drop_last(), base) * base + digit_value(digits.last())
    }
}

/// One given byte.
pub open spec fn symbol(s: Seq<u8>, pos: int, b: u8) -> Option<int> {
    if 0 <= pos < s.len() && s[pos] == b {
        Some(pos + 1)
    } else {
        None
    }
}

/// A decimal number: blanks, one or more digits, blanks.
pub open spec fn decimal(s: Seq<u8>, pos: int) -> Option<(nat, int)> {
    let first = run_end(s, pos, Class::Blank);
    let last = run_end(s, first, Class::Digit);
    if first < last {
        Some((number_value(s.subrange(first, last), 10), run_end(s, last, Class::Blank)))
    } else {
        None
    }
}

/// A hexadecimal number: blanks, `0x` or `0X`, one or more hexadecimal
/// digits, blanks.
pub open spec fn hexadecimal(s: Seq<u8>, pos: int) -> Option<(nat, int)> {
    let zero = run_end(s, pos, Class::Blank);
    let first = zero + 2;
    let last = run_end(s, first, Class::HexDigit);
    if 0 <= zero && first <= s.len() && s[zero] == ('0' as u8) && (s[zero + 1] == ('x' as u8)
        || s[zero + 1] == ('X' as u8)) && first < last {
        Some((number_value(s.subrange(first, last), 16), run_end(s, last, Class::Blank)))
    } else {
        None
    }
}

/// A number: hexadecimal where that matches, else decimal.
pub open spec fn number(s: Seq<u8>, pos: int) -> Option<(nat, int)> {
    match hexadecimal(s, pos) {
        Some(found) => Some(found),
        None => decimal(s, pos),
    }
}

/// A register: blanks, `R` or `r`, a decimal number. A register index is
/// one byte and keeps the low 8 bits of the number.
pub open spec fn register(s: Seq<u8>, pos: int) -> Option<(u8, int)> {
    let start = run_end(s, pos, Class::Blank);
    if 0 <= start < s.len() && (s[start] == ('R' as u8) || s[start] == ('r' as u8)) {
        match decimal(s, start + 1) {
            Some((value, end)) => Some(((value % 0x100) as u8, end)),
            None => None,
        }
    } else {
        None
    }
}

/// A constant: blanks, `#`, a number that fits in 16 bits.
pub open spec fn constant(s: Seq<u8>, pos: int) -> Option<(u16, int)> {
    let start = run_end(s, pos, Class::Blank);
    match symbol(s, start, '#' as u8) {
        Some(after) => match number(s, after) {
            Some((value, end)) => if value <= 0xFFFF {
                Some((value as u16, end))
            } else {
                None
            },
            None => None,
        },
        None => None,
    }
}

/// The name of a label: blanks, a letter or an underscore, then letters,
/// digits and underscores, blanks. The name is held in upper case.
pub open spec fn name(s: Seq<u8>, pos: int) -> Option<(Seq<char>, int)> {
    let first = run_end(s, pos, Class::Blank);
    if 0 <= first < s.len() && (is_letter(s[first]) || s[first] == ('_' as u8)) {
        let last = run_end(s, first + 1, Class::Word);
        Some((upper_text(s.subrange(first, last)), run_end(s, last, Class::Blank)))
    } else {
        None
    }
}

/// A mnemonic: blanks, one or more letters, blanks. It is held in upper
/// case.
pub open spec fn mnemonic(s: Seq<u8>, pos: int) -> Option<(Seq<char>, int)> {
    let first = run_end(s, pos, Class::Blank);
    let last = run_end(s, first, Class::Letter);
    if first < last {
        Some((upper_text(s.subrange(first, last)), run_end(s, last, Class::Blank)))
    } else {
        None
    }
}

/// A register used as a pointer: blanks, `[`, a register, `]`, blanks.
pub open spec fn pointer(s: Seq<u8>, pos: int) -> Option<(u8, int)> {
    match symbol(s, run_end(s, pos, Class::Blank), '[' as u8) {
        Some(inside) => match register(s, inside) {
            Some((reg, close)) => match symbol(s, close, ']' as u8) {
                Some(after) => Some((reg, run_end(s, after, Class::Blank))),
                None => None,
            },
            None => None,
        },
        None => None,
    }
}

/// What every instruction starts with: a mnemonic and a register.
pub open spec fn head(s: Seq<u8>, pos: int) -> Option<(Seq<char>, u8, int)> {
    match mnemonic(s, pos) {
        Some((m, after)) => match register(s, after) {
            Some((reg, end)) => Some((m, reg, end)),
            None => None,
        },
        None => None,
    }
}

/// The start of an instruction with two operands: a mnemonic, a register
/// and a comma.
pub open spec fn head_comma(s: Seq<u8>, pos: int) -> Option<(Seq<char>, u8, int)> {
    match head(s, pos) {
        Some((m, reg, end)) => match symbol(s, end, ',' as u8) {
            Some(after) => Some((m, reg, after)),
            None => None,
        },
        None => None,
    }
}

/// An instruction with two registers.
pub open spec fn reg_reg(s: Seq<u8>, pos: int) -> Option<(InstructionView, int)> {
    match head_comma(s, pos) {
        Some((m, r1, after)) => match register(s, after) {
            Some((r2, end)) => Some((InstructionView::RegReg(m, r1, r2), end)),
            None => None,
        },
        None => None,
    }
}

/// An instruction with a register and a constant.
pub open spec fn reg_cst(s: Seq<u8>, pos: int) -> Option<(InstructionView, int)> {
    match head_comma(s, pos) {
        Some((m, reg, after)) => match constant(s, after) {
            Some((cst, end)) => Some((InstructionView::RegCst(m, reg, cst), end)),
            None => None,
        },
        None => None,
    }
}

/// An instruction with a register and the name of a label.
pub open spec fn reg_label(s: Seq<u8>, pos: int) -> Option<(InstructionView, int)> {
    match head_comma(s, pos) {
        Some((m, reg, after)) => match name(s, after) {
            Some((label, end)) => Some((InstructionView::RegLabel(m, reg, label), end)),
            None => None,
        },
        None => None,
    }
}

/// An instruction with a register and a pointer.
pub open spec fn reg_ptr(s: Seq<u8>, pos: int) -> Option<(InstructionView, int)> {
    match head_comma(s, pos) {
        Some((m, r1, after)) => match pointer(s, after) {
            Some((r2, end)) => Some((InstructionView::RegPtr(m, r1, r2), end)),
            None => None,
        },
        None => None,
    }
}

/// An instruction with one register.
pub open spec fn reg(s: Seq<u8>, pos: int) -> Option<(InstructionView, int)> {
    match head(s, pos) {
        Some((m, r, end)) => Some((InstructionView::Reg(m, r), end)),
        None => None,
    }
}

/// The declaration of a label: a name, `:`, blanks.
pub open spec fn label_declaration(s: Seq<u8>, pos: int) -> Option<(InstructionView, int)> {
    match name(s, pos) {
        Some((label, colon)) => match symbol(s, colon, ':' as u8) {
            Some(after) => Some((InstructionView::Label(label), run_end(s, after, Class::Blank))),
            None => None,
        },
        None => None,
    }
}

/// The first of two results that is there.
pub open spec fn or_else<T>(first: Option<T>, second: Option<T>) -> Option<T> {
    if first is Some {
        first
    } else {
        second
    }
}

/// An instruction. The shapes are tried in this order: two registers, a
/// register and a constant, a register and a label, a register and a
/// pointer, one register.
pub open spec fn instruction(s: Seq<u8>, pos: int) -> Option<(InstructionView, int)> {
    or_else(
        reg_reg(s, pos),
        or_else(
            reg_cst(s, pos),
            or_else(reg_label(s, pos), or_else(reg_ptr(s, pos), reg(s, pos))),
        ),
    )
}

/// One item of a program: an instruction, or else the declaration of a
/// label.
pub open spec fn item(s: Seq<u8>, pos: int) -> Option<(InstructionView, int)> {
    or_else(instruction(s, pos), label_declaration(s, pos))
}

/// What separates two items: blanks, then one or more line feeds, each
/// with the blanks that follow it.
pub open spec fn line_break(s: Seq<u8>, pos: int) -> Option<int> {
    let feed = run_end(s, pos, Class::Blank);
    if 0 <= feed < s.len() && s[feed] == ('\n' as u8) {
        Some(run_end(s, feed, Class::Gap))
    } else {
        None
    }
}

/// The items that follow an item that ends at `pos`, each behind a line
/// break, and the position behind the last of them.
pub open spec fn more_items(s: Seq<u8>, pos: int) -> (Seq<InstructionView>, int)
    decreases s.len() - pos,
{
    match line_break(s, pos) {
        Some(start) => match item(s, start) {
            Some((inst, end)) => {
                proof {
                    lemma_line_break_advances(s, pos);
                    lemma_item_advances(s, start);
                }
                let (rest, stop) = more_items(s, end);
                (seq![inst] + rest, stop)
            },
            None => (Seq::empty(), pos),
        },
        None => (Seq::empty(), pos),
    }
}

/// The items at the start of a text, with line breaks between them, and the
/// position behind the last of them.
pub open spec fn items(s: Seq<u8>) -> (Seq<InstructionView>, int) {
    match item(s, 0) {
        Some((inst, end)) => {
            let (rest, stop) = more_items(s, end);
            (seq![inst] + rest, stop)
        },
        None => (Seq::empty(), 0),
    }
}

/// Where the items of a text and the line breaks behind them end.
pub open spec fn stop(s: Seq<u8>) -> int {
    match line_break(s, items(s).1) {
        Some(after) => after,
        None => items(s).1,
    }
}

/// The position that a syntax error reports: the first byte behind `stop`
/// that is no blank, or `stop` itself where only blanks follow.
pub open spec fn error_position(s: Seq<u8>) -> int {
    let token = run_end(s, stop(s), Class::Blank);
    if token < s.len() {
        token
    } else {
        stop(s)
    }
}

/// The line of a position, counted from 1: one more than the number of line
/// feeds before it.
pub open spec fn line_of(s: Seq<u8>, pos: int) -> nat {
    1 + s.take(pos).filter(|b: u8| b == ('\n' as u8)).len()
}

/// Where the line of a position starts: behind the last line feed before
/// the position, or at 0.
pub open spec fn line_start(s: Seq<u8>, pos: int) -> int
    decreases pos,
{
    if pos <= 0 {
        0
    } else if s[pos - 1] == ('\n' as u8) {
        pos
    } else {
        line_start(s, pos - 1)
    }
}

/// The column of a position in its line, counted from 1.
pub open spec fn column_of(s: Seq<u8>, pos: int) -> nat {
    (pos - line_start(s, pos) + 1) as nat
}

/// What parsing a text gives: its items, if they and the line breaks behind
/// them make up the whole text, and else the line and the column of the
/// position that a syntax error reports.
pub open spec fn program(s: Seq<u8>) -> Result<Seq<InstructionView>, (nat, nat)> {
    if stop(s) == s.len() {
        Ok(items(s).0)
    } else {
        Err((line_of(s, error_position(s)), column_of(s, error_position(s))))
    }
}

/// A run ends at or behind its start, and within the text.
pub proof fn lemma_run_end_bounds(s: Seq<u8>, pos: int, class: Class)
    ensures
        pos <= run_end(s, pos, class),
        pos <= s.len() ==> run_end(s, pos, class) <= s.len(),
    decreases s.len() - pos,
{
    if 0 <= pos < s.len() && class.has(s[pos]) {
        lemma_run_end_bounds(s, pos + 1, class);
    }
}

/// A line break ends behind its start, and within the text.
pub proof fn lemma_line_break_advances(s: Seq<u8>, pos: int)
    ensures
        line_break(s, pos) is Some ==> pos < line_break(s, pos).unwrap() <= s.len(),
{
    let feed = run_end(s, pos, Class::Blank);
    lemma_run_end_bounds(s, pos, Class::Blank);
    lemma_run_end_bounds(s, feed + 1, Class::Gap);
}

/// An item ends behind its start, and within the text.
pub proof fn lemma_item_advances(s: Seq<u8>, pos: int)
    requires
        0 <= pos,
    ensures
        item(s, pos) is Some ==> pos < item(s, pos).unwrap().1 <= s.len(),
{
    lemma_head_advances(s, pos);
    lemma_name_advances(s, pos);
    match name(s, pos) {
        Some((label, colon)) => {
            lemma_run_end_bounds(s, colon + 1, Class::Blank);
        },
        None => {},
    }
    match head_comma(s, pos) {
        Some((m, r1, after)) => {
            lemma_register_advances(s, after);
            lemma_run_end_bounds(s, after, Class::Blank);
            lemma_number_advances(s, run_end(s, after, Class::Blank) + 1);
            lemma_name_advances(s, after);
            let bracket = run_end(s, after, Class::Blank);
            lemma_register_advances(s, bracket + 1);
            match register(s, bracket + 1) {
                Some((reg, close)) => {
                    lemma_run_end_bounds(s, close + 1, Class::Blank);
                },
                None => {},
            }
        },
        None => {},
    }
}

/// A decimal number ends behind its start, and within the text.
pub proof fn lemma_decimal_advances(s: Seq<u8>, pos: int)
    requires
        0 <= pos,
    ensures
        decimal(s, pos) is Some ==> pos < decimal(s, pos).unwrap().1 <= s.len(),
{
    let first = run_end(s, pos, Class::Blank);
    let last = run_end(s, first, Class::Digit);
    lemma_run_end_bounds(s, pos, Class::Blank);
    lemma_run_end_bounds(s, first, Class::Digit);
    lemma_run_end_bounds(s, last, Class::Blank);
}

/// A number ends behind its start, and within the text.
pub proof fn lemma_number_advances(s: Seq<u8>, pos: int)
    requires
        0 <= pos,
    ensures
        number(s, pos) is Some ==> pos < number(s, pos).unwrap().1 <= s.len(),
{
    if hexadecimal(s, pos) is Some {
        let zero = run_end(s, pos, Class::Blank);
        let last = run_end(s, zero + 2, Class::HexDigit);
        lemma_run_end_bounds(s, pos, Class::Blank);
        lemma_run_end_bounds(s, zero + 2, Class::HexDigit);
        lemma_run_end_bounds(s, last, Class::Blank);
    } else {
        lemma_decimal_advances(s, pos);
    }
}

/// A register ends behind its start, and within the text.
pub proof fn lemma_register_advances(s: Seq<u8>, pos: int)
    requires
        0 <= pos,
    ensures
        register(s, pos) is Some ==> pos < register(s, pos).unwrap().1 <= s.len(),
{
    let start = run_end(s, pos, Class::Blank);
    lemma_run_end_bounds(s, pos, Class::Blank);
    lemma_decimal_advances(s, start + 1);
}

/// A name ends behind its start, and within the text.
pub proof fn lemma_name_advances(s: Seq<u8>, pos: int)
    requires
        0 <= pos,
    ensures
        name(s, pos) is Some ==> pos < name(s, pos).unwrap().1 <= s.len(),
{
    let first = run_end(s, pos, Class::Blank);
    let last = run_end(s, first + 1, Class::Word);
    lemma_run_end_bounds(s, pos, Class::Blank);
    lemma_run_end_bounds(s, first + 1, Class::Word);
    lemma_run_end_bounds(s, last, Class::Blank);
}

/// A mnemonic with a register ends behind its start, and within the text.
pub proof fn lemma_head_advances(s: Seq<u8>, pos: int)
    requires
        0 <= pos,
    ensures
        head(s, pos) is Some ==> pos < head(s, pos).unwrap().2 <= s.len(),
{
    let first = run_end(s, pos, Class::Blank);
    let last = run_end(s, first, Class::Letter);
    lemma_run_end_bounds(s, pos, Class::Blank);
    lemma_run_end_bounds(s, first, Class::Letter);
    lemma_run_end_bounds(s, last, Class::Blank);
    lemma_register_advances(s, run_end(s, last, Class::Blank));
}

} // verus!
