//! The syntax of a decimal floating-point literal.
//!
//! A literal is an optional sign followed by `inf`, `infinity` or `nan` in
//! any case, or by a number: decimal digits with at most one point among
//! them and at least one digit, then optionally `e` or `E`, an optional sign
//! and at least one digit.

use crate::text::{chars_of, digit_of, is_digit};
use vstd::prelude::*;

verus! {

/// Whether `c` is `+` or `-`.
pub open spec fn is_sign(c: char) -> bool {
    c == '+' || c == '-'
}

/// Whether `c` is the lower-case letter `letter` in either case.
pub open spec fn same_letter(c: char, letter: char) -> bool {
    c == letter || c as u32 + 32 == letter as u32
}

/// The end of the run of decimal digits that starts at `from`.
pub open spec fn digits_end(text: Seq<char>, from: int) -> int
    decreases text.len() - from,
{
    if 0 <= from < text.len() && is_digit(text[from]) {
        digits_end(text, from + 1)
    } else {
        from
    }
}

/// Whether `text` from `at` to its end is `word` in any case.
pub open spec fn is_word_at(text: Seq<char>, at: int, word: Seq<char>) -> bool {
    &&& text.len() - at == word.len()
    &&& forall|i: int| 0 <= i < word.len() ==> same_letter(#[trigger] text[at + i], word[i])
}

/// Whether `text` from `at` to its end is an exponent: `e`, an optional
/// sign, and one digit or more.
pub open spec fn is_exponent_at(text: Seq<char>, at: int) -> bool {
    &&& 0 <= at < text.len()
    &&& same_letter(text[at], 'e')
    &&& {
        let start = if at + 1 < text.len() && is_sign(text[at + 1]) {
            at + 2
        } else {
            at + 1
        };
        start < text.len() && digits_end(text, start) == text.len()
    }
}

/// Whether `text` from `at` to its end is a number.
pub open spec fn is_number_at(text: Seq<char>, at: int) -> bool {
    let whole_end = digits_end(text, at);
    let pointed = whole_end < text.len() && text[whole_end] == '.';
    let mantissa_end = if pointed {
        digits_end(text, whole_end + 1)
    } else {
        whole_end
    };
    let digits = if pointed {
        mantissa_end - at - 1
    } else {
        mantissa_end - at
    };
    digits > 0 && (mantissa_end == text.len() || is_exponent_at(text, mantissa_end))
}

/// Whether `text` is a decimal floating-point literal.
pub open spec fn is_float_literal(text: Seq<char>) -> bool {
    let at = if text.len() > 0 && is_sign(text[0]) {
        1int
    } else {
        0int
    };
    is_word_at(text, at, "inf"@) || is_word_at(text, at, "infinity"@) || is_word_at(
        text,
        at,
        "nan"@,
    ) || is_number_at(text, at)
}

/// The end of the run of decimal digits that starts at `from`.
fn skip_digits(text: &Vec<char>, from: usize) -> (r: usize)
    requires
        from <= text.len(),
    ensures
        r == digits_end(text@, from as int),
        from <= r <= text.len(),
{
    let mut i: usize = from;
    while i < text.len() && digit_of(text[i]).is_some()
        invariant
            from <= i <= text.len(),
            digits_end(text@, from as int) == digits_end(text@, i as int),
        decreases text.len() - i,
    {
        i += 1;
    }
    i
}

/// Whether `c` is the lower-case letter `letter` in either case.
fn letter_matches(c: char, letter: char) -> (r: bool)
    ensures
        r == same_letter(c, letter),
{
    c == letter || (c as u32) + 32 == letter as u32
}

/// Whether `text` from `at` to its end is `word` in any case.
fn word_at(text: &Vec<char>, at: usize, word: &str) -> (r: bool)
    requires
        at <= text.len(),
    ensures
        r == is_word_at(text@, at as int, word@),
{
    let wanted = chars_of(word);
    if text.len() - at != wanted.len() {
        return false;
    }
    let mut i: usize = 0;
    while i < wanted.len()
        invariant
            at <= text.len(),
            text.len() - at == wanted.len(),
            wanted@ == word@,
            i <= wanted.len(),
            forall|k: int| 0 <= k < i ==> same_letter(#[trigger] text[at + k], wanted[k]),
        decreases wanted.len() - i,
    {
        if !letter_matches(text[at + i], wanted[i]) {
            return false;
        }
        i += 1;
    }
    true
}

/// Whether `text` from `at` to its end is an exponent.
fn exponent_at(text: &Vec<char>, at: usize) -> (r: bool)
    requires
        at < text.len(),
    ensures
        r == is_exponent_at(text@, at as int),
{
    if !letter_matches(text[at], 'e') {
        return false;
    }
    let start: usize = if at + 1 < text.len() && (text[at + 1] == '+' || text[at + 1] == '-') {
        at + 2
    } else {
        at + 1
    };
    start < text.len() && skip_digits(text, start) == text.len()
}

/// Whether `text` from `at` to its end is a number.
fn number_at(text: &Vec<char>, at: usize) -> (r: bool)
    requires
        at <= text.len(),
    ensures
        r == is_number_at(text@, at as int),
{
    let whole_end = skip_digits(text, at);
    let pointed = whole_end < text.len() && text[whole_end] == '.';
    let mantissa_end = if pointed {
        skip_digits(text, whole_end + 1)
    } else {
        whole_end
    };
    let digits = if pointed {
        mantissa_end - at - 1
    } else {
        mantissa_end - at
    };
    digits > 0 && (mantissa_end == text.len() || exponent_at(text, mantissa_end))
}

/// Whether `text` is written as a decimal floating-point literal.
pub fn is_float_text(text: &str) -> (r: bool)
    ensures
        r == is_float_literal(text@),
{
    let chars = chars_of(text);
    let at: usize = if chars.len() > 0 && (chars[0] == '+' || chars[0] == '-') {
        1
    } else {
        0
    };
    word_at(&chars, at, "inf") || word_at(&chars, at, "infinity") || word_at(&chars, at, "nan")
        || number_at(&chars, at)
}

} // verus!
