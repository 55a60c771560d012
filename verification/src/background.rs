//! The base that a tile is composited over, and how it is written as a
//! request option.

use crate::text::{chars_of, hex_of, hex_value};
use std::borrow::Cow;
use vstd::prelude::*;
use vstd::std_specs::convert::TryFromSpecImpl;

verus! {

/// The base that a tile is composited over.
#[derive(Clone, Copy, Debug, PartialEq, Eq, Structural)]
pub enum Background {
    /// Fully transparent.
    Alpha,
    /// An opaque fill colour: red, green, blue.
    Rgb(u8, u8, u8),
}

/// A background option that is not six hexadecimal digits.
#[derive(Clone, Copy, Debug, PartialEq, Eq, Structural)]
pub struct BackgroundError();

/// Whether `text` is six hexadecimal digits.
pub open spec fn is_colour(text: Seq<char>) -> bool {
    text.len() == 6 && forall|i: int| 0 <= i < 6 ==> hex_value(#[trigger] text[i]) is Some
}

/// The number that the two hexadecimal digits at `at` and after it write.
pub open spec fn hex_pair(text: Seq<char>, at: int) -> u8 {
    (16 * hex_value(text[at])->0 + hex_value(text[at + 1])->0) as u8
}

/// The fill colour that `text` writes as `RRGGBB`; `None` for any text but
/// six hexadecimal digits.
pub open spec fn background_of(text: Seq<char>) -> Option<Background> {
    if is_colour(text) {
        Some(Background::Rgb(hex_pair(text, 0), hex_pair(text, 2), hex_pair(text, 4)))
    } else {
        None
    }
}

/// The outcome of reading `text` as a fill colour.
pub open spec fn colour_result(text: Seq<char>) -> Result<Background, BackgroundError> {
    match background_of(text) {
        Some(background) => Ok(background),
        None => Err(BackgroundError()),
    }
}

/// Reads two hexadecimal digits.
fn read_pair(text: &Vec<char>, at: usize) -> (r: Option<u8>)
    requires
        at + 1 < text.len(),
    ensures
        r is Some <==> hex_value(text[at as int]) is Some && hex_value(text[at + 1]) is Some,
        r matches Some(value) ==> value == hex_pair(text@, at as int),
{
    match (hex_of(text[at]), hex_of(text[at + 1])) {
        (Some(high), Some(low)) => Some(16 * high + low),
        _ => None,
    }
}

/// Reads a fill colour written as six hexadecimal digits, two each for red,
/// green and blue.
pub fn parse_background(text: &str) -> (r: Result<Background, BackgroundError>)
    ensures
        r == colour_result(text@),
{
    let chars = chars_of(text);
    if chars.len() != 6 {
        return Err(BackgroundError());
    }
    match (read_pair(&chars, 0), read_pair(&chars, 2), read_pair(&chars, 4)) {
        (Some(red), Some(green), Some(blue)) => Ok(Background::Rgb(red, green, blue)),
        _ => Err(BackgroundError()),
    }
}

impl<'a> TryFrom<Cow<'a, str>> for Background {
    type Error = BackgroundError;

    fn try_from(value: Cow<'a, str>) -> (r: Result<Self, Self::Error>) {
        match value {
            Cow::Borrowed(text) => parse_background(text),
            Cow::Owned(text) => parse_background(text.as_str()),
        }
    }
}

impl<'a> TryFromSpecImpl<Cow<'a, str>> for Background {
    open spec fn obeys_try_from_spec() -> bool {
        true
    }

    open spec fn try_from_spec(value: Cow<'a, str>) -> Result<Self, Self::Error> {
        colour_result(value@)
    }
}

} // verus!
