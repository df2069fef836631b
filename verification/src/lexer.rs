//! Reading runs of bytes, numbers and names from a text.

use vstd::prelude::*;
use crate::grammar::{
    digit_value,
    is_word,
    number_value,
    run_end,
    upper,
    upper_text,
    Class,
};

verus! {

/// `String::push` appends one character to the end of the string.
pub assume_specification[ String::push ](text: &mut String, ch: char)
    ensures
        final(text)@ == old(text)@.push(ch),
;

/// The position behind the longest run of bytes of a class that starts at
/// `pos`.
pub fn scan(s: &[u8], pos: usize, class: Class) -> (end: usize)
    ensures
        end == run_end(s@, pos as int, class),
        pos <= end,
        pos <= s.len() ==> end <= s.len(),
        forall|i: int| pos <= i < end ==> class.has(#[trigger] s@[i]),
{
    let mut i = pos;
    while i < s.len() && class.test(s[i])
        invariant
            pos <= i,
            pos <= s.len() ==> i <= s.len(),
            run_end(s@, pos as int, class) == run_end(s@, i as int, class),
            forall|k: int| pos <= k < i ==> class.has(#[trigger] s@[k]),
        decreases s.len() - i,
    {
        i += 1;
    }
    i
}

/// The value of a digit, decimal or hexadecimal; 0 for any other byte.
pub fn digit_of(b: u8) -> (value: u8)
    ensures
        value == digit_value(b),
        value < 16,
{
    if ('0' as u8) <= b && b <= ('9' as u8) {
        b - ('0' as u8)
    } else if ('a' as u8) <= b && b <= ('f' as u8) {
        b - ('a' as u8) + 10
    } else if ('A' as u8) <= b && b <= ('F' as u8) {
        b - ('A' as u8) + 10
    } else {
        0
    }
}

/// A number is at least the number that any of its leading digits denote.
pub proof fn lemma_number_value_grows(digits: Seq<u8>, base: nat, k: int)
    requires
        base >= 1,
        0 <= k <= digits.len(),
    ensures
        number_value(digits.take(k), base) <= number_value(digits, base),
    decreases digits.len(),
{
    if k == digits.len() {
        assert(digits.take(k) =~= digits);
    } else {
        let shorter = digits.drop_last();
        assert(shorter.take(k) =~= digits.take(k));
        lemma_number_value_grows(shorter, base, k);
        assert(number_value(shorter, base) * base >= number_value(shorter, base))
            by (nonlinear_arith)
            requires
                base >= 1,
        ;
    }
}

/// The number that the digits from `first` to `last` denote in base 10 or
/// 16, or `None` where it does not fit in 16 bits.
pub fn read_number(s: &[u8], first: usize, last: usize, base: u32) -> (value: Option<u16>)
    requires
        first <= last <= s.len(),
        base == 10 || base == 16,
    ensures
        match value {
            Some(v) => v == number_value(s@.subrange(first as int, last as int), base as nat),
            None => number_value(s@.subrange(first as int, last as int), base as nat) > 0xFFFF,
        },
{
    let ghost digits = s@.subrange(first as int, last as int);
    let mut acc: u32 = 0;
    let mut i = first;
    while i < last
        invariant
            first <= i <= last <= s.len(),
            base == 10 || base == 16,
            digits == s@.subrange(first as int, last as int),
            acc <= 0xFFFF,
            acc == number_value(s@.subrange(first as int, i as int), base as nat),
        decreases last - i,
    {
        let digit = digit_of(s[i]);
        proof {
            let longer = s@.subrange(first as int, i + 1);
            assert(longer.drop_last() =~= s@.subrange(first as int, i as int));
            assert(longer =~= digits.take(i + 1 - first));
            lemma_number_value_grows(digits, base as nat, i + 1 - first);
        }
        let next = acc * base + digit as u32;
        if next > 0xFFFF {
            return None;
        }
        acc = next;
        i += 1;
    }
    Some(acc as u16)
}

/// The low 8 bits of the number that the decimal digits from `first` to
/// `last` denote.
pub fn read_index(s: &[u8], first: usize, last: usize) -> (index: u8)
    requires
        first <= last <= s.len(),
    ensures
        index == number_value(s@.subrange(first as int, last as int), 10) % 0x100,
{
    let mut acc: u8 = 0;
    let mut i = first;
    while i < last
        invariant
            first <= i <= last <= s.len(),
            acc == number_value(s@.subrange(first as int, i as int), 10) % 0x100,
        decreases last - i,
    {
        let digit = digit_of(s[i]);
        proof {
            let longer = s@.subrange(first as int, i + 1);
            assert(longer.drop_last() =~= s@.subrange(first as int, i as int));
            let before = number_value(longer.drop_last(), 10) as int;
            let high = before / 0x100;
            assert(before * 10 + digit == 0x100 * (high * 10) + (acc * 10 + digit));
            vstd::arithmetic::div_mod::lemma_mod_multiples_vanish(
                high * 10,
                acc * 10 + digit,
                0x100,
            );
        }
        acc = ((acc as u32 * 10 + digit as u32) % 0x100) as u8;
        i += 1;
    }
    acc
}

/// The bytes from `first` to `last` as a name in upper case.
pub fn read_name(s: &[u8], first: usize, last: usize) -> (text: String)
    requires
        first <= last <= s.len(),
        forall|i: int| first <= i < last ==> is_word(#[trigger] s@[i]),
    ensures
        text@ == upper_text(s@.subrange(first as int, last as int)),
{
    let mut text = String::new();
    let mut i = first;
    while i < last
        invariant
            first <= i <= last <= s.len(),
            forall|i: int| first <= i < last ==> is_word(#[trigger] s@[i]),
            text@ == upper_text(s@.subrange(first as int, i as int)),
        decreases last - i,
    {
        let b = s[i];
        let c = if ('a' as u8) <= b && b <= ('z' as u8) {
            b - 32
        } else {
            b
        };
        text.push(c as char);
        i += 1;
        assert(text@ =~= upper_text(s@.subrange(first as int, i as int)));
    }
    text
}

} // verus!
