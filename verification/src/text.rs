//! Characters of a text, and the numbers written in them.

use vstd::prelude::*;

verus! {

/// Whether `c` is one of `0` to `9`.
pub open spec fn is_digit(c: char) -> bool {
    '0' as u32 <= c as u32 <= '9' as u32
}

/// The value of the decimal digit `c`.
pub open spec fn digit_value(c: char) -> int {
    c as u32 - '0' as u32
}

/// The value of the hexadecimal digit `c`, in either case; `None` for any
/// other character.
pub open spec fn hex_value(c: char) -> Option<int> {
    if is_digit(c) {
        Some(digit_value(c))
    } else if 'a' as u32 <= c as u32 <= 'f' as u32 {
        Some(c as u32 - 'a' as u32 + 10)
    } else if 'A' as u32 <= c as u32 <= 'F' as u32 {
        Some(c as u32 - 'A' as u32 + 10)
    } else {
        None
    }
}

/// Whether `text` holds decimal digits only.
pub open spec fn all_digits(text: Seq<char>) -> bool {
    forall|i: int| 0 <= i < text.len() ==> is_digit(#[trigger] text[i])
}

/// The number that the decimal digits of `digits` write.
pub open spec fn decimal_value(digits: Seq<char>) -> int
    decreases digits.len(),
{
    if digits.len() == 0 {
        0
    } else {
        10 * decimal_value(digits.drop_last()) + digit_value(digits.last())
    }
}

/// The number that `text` writes: an optional `+`, then one decimal digit or
/// more, and nothing else.
pub open spec fn unsigned_of(text: Seq<char>) -> Option<int> {
    let digits = if text.len() > 0 && text[0] == '+' {
        text.skip(1)
    } else {
        text
    };
    if digits.len() > 0 && all_digits(digits) {
        Some(decimal_value(digits))
    } else {
        None
    }
}

/// The number that `text` writes, where it fits in 32 bits.
pub open spec fn u32_of(text: Seq<char>) -> Option<u32> {
    match unsigned_of(text) {
        Some(value) => if value <= u32::MAX {
            Some(value as u32)
        } else {
            None
        },
        None => None,
    }
}

/// The first index at or after `from` at which `text` holds `c`; the length
/// of `text` where it holds none.
pub open spec fn first_index(text: Seq<char>, c: char, from: int) -> int
    decreases text.len() - from,
{
    if from >= text.len() {
        text.len() as int
    } else if text[from] == c {
        from
    } else {
        first_index(text, c, from + 1)
    }
}

/// A number is at least the number that its leading digits write.
proof fn lemma_decimal_value_grows(digits: Seq<char>, count: int)
    requires
        all_digits(digits),
        0 <= count <= digits.len(),
    ensures
        0 <= decimal_value(digits.take(count)) <= decimal_value(digits),
    decreases digits.len(),
{
    if digits.len() == 0 {
        // Nothing to show: there are no digits.
    } else if count == digits.len() {
        assert(digits.take(count) =~= digits);
        lemma_decimal_value_grows(digits.drop_last(), count - 1);
    } else {
        lemma_decimal_value_grows(digits.drop_last(), count);
        assert(digits.drop_last().take(count) =~= digits.take(count));
    }
}

/// The characters of `text`, in order.
pub fn chars_of(text: &str) -> (chars: Vec<char>)
    ensures
        chars@ == text@,
{
    let mut chars: Vec<char> = Vec::new();
    for c in it: text.chars()
        invariant
            chars@ == it.seq().take(it.index() as int),
            it.seq() == text@,
    {
        chars.push(c);
    }
    chars
}

/// Whether `text` is `literal`, character for character.
pub fn text_is(text: &Vec<char>, from: usize, to: usize, literal: &str) -> (r: bool)
    requires
        from <= to <= text.len(),
    ensures
        r == (text@.subrange(from as int, to as int) == literal@),
{
    let wanted = chars_of(literal);
    let ghost part = text@.subrange(from as int, to as int);
    if to - from != wanted.len() {
        return false;
    }
    let mut i: usize = 0;
    while i < wanted.len()
        invariant
            from <= to <= text.len(),
            to - from == wanted.len(),
            i <= wanted.len(),
            part == text@.subrange(from as int, to as int),
            wanted@ == literal@,
            forall|k: int| 0 <= k < i ==> part[k] == wanted[k],
        decreases wanted.len() - i,
    {
        if text[from + i] != wanted[i] {
            return false;
        }
        i += 1;
    }
    proof {
        assert(part =~= wanted@);
    }
    true
}

/// The first index in `from..to` at which `text` holds `c`; `to` where it
/// holds none there.
pub fn find_char(text: &Vec<char>, c: char, from: usize, to: usize) -> (r: usize)
    requires
        from <= to <= text.len(),
    ensures
        r == first_index(text@.take(to as int), c, from as int),
        from <= r <= to,
        r < to ==> text[r as int] == c,
        forall|k: int| from <= k < r ==> text[k] != c,
{
    let ghost part = text@.take(to as int);
    let mut i: usize = from;
    while i < to && text[i] != c
        invariant
            from <= i <= to <= text.len(),
            part == text@.take(to as int),
            first_index(part, c, from as int) == first_index(part, c, i as int),
            forall|k: int| from <= k < i ==> text[k] != c,
        decreases to - i,
    {
        i += 1;
    }
    i
}

/// The value of `c` as a decimal digit.
pub fn digit_of(c: char) -> (r: Option<u8>)
    ensures
        r is Some <==> is_digit(c),
        r matches Some(value) ==> value == digit_value(c),
{
    let code: u32 = c as u32;
    if 48 <= code && code <= 57 {
        Some((code - 48) as u8)
    } else {
        None
    }
}

/// The value of `c` as a hexadecimal digit.
pub fn hex_of(c: char) -> (r: Option<u8>)
    ensures
        r is Some <==> hex_value(c) is Some,
        r matches Some(value) ==> value == hex_value(c)->0 && value < 16,
{
    let code: u32 = c as u32;
    if 48 <= code && code <= 57 {
        Some((code - 48) as u8)
    } else if 97 <= code && code <= 102 {
        Some((code - 87) as u8)
    } else if 65 <= code && code <= 70 {
        Some((code - 55) as u8)
    } else {
        None
    }
}

/// Reads the characters `from..to` of `text` as a number of 32 bits: an
/// optional `+` and decimal digits. Any other text, and a number that does
/// not fit, gives `None`.
pub fn parse_u32(text: &Vec<char>, from: usize, to: usize) -> (r: Option<u32>)
    requires
        from <= to <= text.len(),
    ensures
        r == u32_of(text@.subrange(from as int, to as int)),
{
    let ghost part = text@.subrange(from as int, to as int);
    let start: usize = if from < to && text[from] == '+' {
        from + 1
    } else {
        from
    };
    let ghost digits = text@.subrange(start as int, to as int);
    proof {
        if start != from {
            assert(digits =~= part.skip(1));
        }
    }
    if start == to {
        return None;
    }
    let mut value: u64 = 0;
    let mut i: usize = start;
    while i < to
        invariant
            start <= i <= to <= text.len(),
            digits == text@.subrange(start as int, to as int),
            part == text@.subrange(from as int, to as int),
            unsigned_of(part) == if digits.len() > 0 && all_digits(digits) {
                Some(decimal_value(digits))
            } else {
                None
            },
            all_digits(digits.take(i - start)),
            value == decimal_value(digits.take(i - start)),
            value <= u32::MAX,
        decreases to - i,
    {
        let ghost read = digits.take(i - start);
        let ghost next = digits.take(i + 1 - start);
        proof {
            assert(next.drop_last() =~= read);
        }
        match digit_of(text[i]) {
            None => {
                proof {
                    assert(!is_digit(digits[i - start]));
                }
                return None;
            },
            Some(digit) => {
                value = value * 10 + digit as u64;
                proof {
                    assert forall|k: int| 0 <= k < next.len() implies is_digit(
                        #[trigger] next[k],
                    ) by {
                        if k < read.len() {
                            assert(next[k] == read[k]);
                        }
                    }
                }
                if value > 0xffff_ffff {
                    proof {
                        if all_digits(digits) {
                            lemma_decimal_value_grows(digits, i + 1 - start);
                        }
                    }
                    return None;
                }
            },
        }
        i += 1;
    }
    proof {
        assert(digits.take(to - start) =~= digits);
    }
    Some(value as u32)
}

} // verus!
