//! From the path and the query of a request to the tile it asks for.
//!
//! A tile's path is `/{zoom}/{x}/{y}.{ext}`: three numbers and the name of an
//! image format. Options come as pairs of key and value: `background` or
//! `bg`, `quality` or `q`, and `size`.

use crate::background::{background_of, parse_background, Background};
use crate::literal::{digits_end, is_float_literal, is_float_text};
use crate::status::Status;
use crate::text::{chars_of, find_char, first_index, parse_u32, text_is, u32_of};
use vstd::prelude::*;
use vstd::string::StringExecFns;

verus! {

/// The image format of a response.
#[derive(Clone, Copy, Debug, PartialEq, Eq, Structural)]
pub enum ImageType {
    Jpeg,
    Webp,
}

/// The address of a tile in the grid of its zoom level.
#[derive(Clone, Copy, Debug, PartialEq, Eq, Structural)]
pub struct TileAddress {
    pub zoom: u32,
    /// Column, counted from the west.
    pub x: u32,
    /// Row, counted from the north.
    pub y: u32,
}

/// The options of a request.
#[derive(Debug)]
pub struct TileOptions {
    /// Edge of the square tile, in pixels.
    pub size: u32,
    /// Encoding quality, as a decimal floating-point literal.
    pub quality: String,
    pub background: Background,
}

/// What a [`TileOptions`] holds.
pub struct TileOptionsView {
    pub size: u32,
    pub quality: Seq<char>,
    pub background: Background,
}

impl View for TileOptions {
    type V = TileOptionsView;

    open spec fn view(&self) -> TileOptionsView {
        TileOptionsView { size: self.size, quality: self.quality@, background: self.background }
    }
}

/// A request for a tile.
#[derive(Debug)]
pub struct TileRequest {
    pub address: TileAddress,
    pub format: ImageType,
    pub options: TileOptions,
}

/// What a [`TileRequest`] holds.
pub struct TileRequestView {
    pub address: TileAddress,
    pub format: ImageType,
    pub options: TileOptionsView,
}

impl View for TileRequest {
    type V = TileRequestView;

    open spec fn view(&self) -> TileRequestView {
        TileRequestView { address: self.address, format: self.format, options: self.options@ }
    }
}

/// The format that the extension `ext` names.
pub open spec fn image_type_of(ext: Seq<char>) -> Option<ImageType> {
    if ext == "jpg"@ || ext == "jpeg"@ {
        Some(ImageType::Jpeg)
    } else if ext == "webp"@ {
        Some(ImageType::Webp)
    } else {
        None
    }
}

/// The address that `head`, a path up to its extension, writes: a `/`, then
/// three numbers with a `/` between them.
pub open spec fn tile_address_of(head: Seq<char>) -> Option<TileAddress> {
    let body = if head.len() > 0 && head[0] == '/' {
        head.skip(1)
    } else {
        Seq::<char>::empty()
    };
    let first = first_index(body, '/', 0);
    let second = first_index(body, '/', first + 1);
    if first < body.len() && second < body.len() {
        match (
            u32_of(body.subrange(0, first)),
            u32_of(body.subrange(first + 1, second)),
            u32_of(body.subrange(second + 1, body.len() as int)),
        ) {
            (Some(zoom), Some(x), Some(y)) => Some(TileAddress { zoom, x, y }),
            _ => None,
        }
    } else {
        None
    }
}

/// The tile and the format that `path` asks for. The extension is what
/// follows the first `.` of the path.
pub open spec fn tile_of(path: Seq<char>) -> Option<(TileAddress, ImageType)> {
    let dot = first_index(path, '.', 0);
    if dot < path.len() {
        match (
            image_type_of(path.subrange(dot + 1, path.len() as int)),
            tile_address_of(path.subrange(0, dot)),
        ) {
            (Some(format), Some(address)) => Some((address, format)),
            _ => None,
        }
    } else {
        None
    }
}

/// The options in force before any is given.
pub open spec fn default_options() -> TileOptionsView {
    TileOptionsView { size: 256, quality: "75"@, background: Background::Alpha }
}

/// The options after the pair of `key` and `value` was read; `None` where
/// the key is known and the value is not in its syntax.
pub open spec fn with_option(current: TileOptionsView, key: Seq<char>, value: Seq<char>) -> Option<
    TileOptionsView,
> {
    if key == "background"@ || key == "bg"@ {
        match background_of(value) {
            Some(background) => Some(TileOptionsView { background, ..current }),
            None => None,
        }
    } else if key == "quality"@ || key == "q"@ {
        if is_float_literal(value) {
            Some(TileOptionsView { quality: value, ..current })
        } else {
            None
        }
    } else if key == "size"@ {
        match u32_of(value) {
            Some(size) => Some(TileOptionsView { size, ..current }),
            None => None,
        }
    } else {
        Some(current)
    }
}

/// The options that `pairs` give, read in order; `None` where one of them
/// has a known key and a value that is not in its syntax.
pub open spec fn options_of(pairs: Seq<(Seq<char>, Seq<char>)>) -> Option<TileOptionsView>
    decreases pairs.len(),
{
    if pairs.len() == 0 {
        Some(default_options())
    } else {
        match options_of(pairs.drop_last()) {
            Some(current) => with_option(current, pairs.last().0, pairs.last().1),
            None => None,
        }
    }
}

/// The keys and values of `pairs` as texts.
pub open spec fn pair_texts(pairs: Seq<(String, String)>) -> Seq<(Seq<char>, Seq<char>)> {
    Seq::new(pairs.len(), |i: int| (pairs[i].0@, pairs[i].1@))
}

/// The request that `path` and `pairs` make: an option that is not in its
/// syntax is a bad request, whatever the path; a path that names no tile or
/// no known format is not found.
pub open spec fn request_of(path: Seq<char>, pairs: Seq<(Seq<char>, Seq<char>)>) -> Result<
    TileRequestView,
    Status,
> {
    match options_of(pairs) {
        None => Err(Status::BadRequest),
        Some(options) => match tile_of(path) {
            None => Err(Status::NotFound),
            Some((address, format)) => Ok(TileRequestView { address, format, options }),
        },
    }
}

impl ImageType {
    /// The format that an extension names: `jpg` or `jpeg`, or `webp`. Any
    /// other extension is refused with a message that names it.
    pub fn try_from(value: &str) -> (r: Result<ImageType, String>)
        ensures
            match image_type_of(value@) {
                Some(format) => r == Ok::<ImageType, String>(format),
                None => r is Err && r->Err_0@ == "unsupported extension "@ + value@,
            },
    {
        let chars = chars_of(value);
        proof {
            assert(chars@.subrange(0, chars.len() as int) =~= value@);
        }
        match image_type_in(&chars, 0, chars.len()) {
            Some(format) => Ok(format),
            None => Err(String::from_str("unsupported extension ").concat(value)),
        }
    }

    /// The media type of the format.
    pub fn content_type(&self) -> (r: &'static str)
        ensures
            r@ == match self {
                ImageType::Jpeg => "image/jpeg"@,
                ImageType::Webp => "image/webp"@,
            },
    {
        match self {
            ImageType::Jpeg => "image/jpeg",
            ImageType::Webp => "image/webp",
        }
    }
}

/// The format that the characters `from..to` of `text` name.
fn image_type_in(text: &Vec<char>, from: usize, to: usize) -> (r: Option<ImageType>)
    requires
        from <= to <= text.len(),
    ensures
        r == image_type_of(text@.subrange(from as int, to as int)),
{
    if text_is(text, from, to, "jpg") || text_is(text, from, to, "jpeg") {
        Some(ImageType::Jpeg)
    } else if text_is(text, from, to, "webp") {
        Some(ImageType::Webp)
    } else {
        None
    }
}

/// Reads the address in the characters before `end` of a path.
fn parse_tile_address(path: &Vec<char>, end: usize) -> (r: Option<TileAddress>)
    requires
        end <= path.len(),
    ensures
        r == tile_address_of(path@.subrange(0, end as int)),
{
    let ghost head = path@.subrange(0, end as int);
    if end == 0 || path[0] != '/' {
        return None;
    }
    let ghost body = head.skip(1);
    proof {
        lemma_first_index_shifts(head, '/', 1, 1);
    }
    let first = find_char(path, '/', 1, end);
    if first == end {
        return None;
    }
    proof {
        lemma_first_index_shifts(head, '/', 1, first + 1);
    }
    let second = find_char(path, '/', first + 1, end);
    if second == end {
        return None;
    }
    proof {
        assert(body.subrange(0, first - 1) =~= path@.subrange(1, first as int));
        assert(body.subrange(first - 1 + 1, second - 1) =~= path@.subrange(
            first + 1,
            second as int,
        ));
        assert(body.subrange(second - 1 + 1, body.len() as int) =~= path@.subrange(
            second + 1,
            end as int,
        ));
    }
    match (
        parse_u32(path, 1, first),
        parse_u32(path, first + 1, second),
        parse_u32(path, second + 1, end),
    ) {
        (Some(zoom), Some(x), Some(y)) => Some(TileAddress { zoom, x, y }),
        _ => None,
    }
}

/// Searching a text without its first `cut` characters finds the same place,
/// counted from the cut.
proof fn lemma_first_index_shifts(text: Seq<char>, c: char, cut: int, from: int)
    requires
        0 <= cut <= from,
        cut <= text.len(),
    ensures
        first_index(text.skip(cut), c, from - cut) == first_index(text, c, from) - cut,
    decreases text.len() - from,
{
    if from < text.len() {
        if text[from] != c {
            lemma_first_index_shifts(text, c, cut, from + 1);
        }
    }
}

/// Reads the tile and the format that a path asks for.
pub fn parse_tile_path(path: &str) -> (r: Option<(TileAddress, ImageType)>)
    ensures
        r == tile_of(path@),
{
    let chars = chars_of(path);
    proof {
        assert(chars@.take(chars.len() as int) =~= chars@);
    }
    let dot = find_char(&chars, '.', 0, chars.len());
    if dot == chars.len() {
        return None;
    }
    match (image_type_in(&chars, dot + 1, chars.len()), parse_tile_address(&chars, dot)) {
        (Some(format), Some(address)) => Some((address, format)),
        _ => None,
    }
}

/// Reads one option into `options`. Says whether the option was accepted: a
/// known key with a value that is not in its syntax is not, and leaves
/// `options` as they were.
pub fn read_option(options: &mut TileOptions, key: &str, value: &str) -> (accepted: bool)
    ensures
        match with_option(old(options)@, key@, value@) {
            Some(next) => accepted && final(options)@ == next,
            None => !accepted && final(options)@ == old(options)@,
        },
{
    let name = chars_of(key);
    let n = name.len();
    proof {
        assert(name@.subrange(0, n as int) =~= key@);
    }
    if text_is(&name, 0, n, "background") || text_is(&name, 0, n, "bg") {
        match parse_background(value) {
            Ok(background) => {
                options.background = background;
                true
            },
            Err(_) => false,
        }
    } else if text_is(&name, 0, n, "quality") || text_is(&name, 0, n, "q") {
        if is_float_text(value) {
            options.quality = String::from_str(value);
            true
        } else {
            false
        }
    } else if text_is(&name, 0, n, "size") {
        let digits = chars_of(value);
        proof {
            assert(digits@.subrange(0, digits.len() as int) =~= value@);
        }
        match parse_u32(&digits, 0, digits.len()) {
            Some(size) => {
                options.size = size;
                true
            },
            None => false,
        }
    } else {
        true
    }
}

/// Reads the options that `pairs` give, in order.
pub fn read_options(pairs: &Vec<(String, String)>) -> (r: Option<TileOptions>)
    ensures
        match options_of(pair_texts(pairs@)) {
            Some(options) => r is Some && r->0@ == options,
            None => r is None,
        },
{
    let mut options = TileOptions {
        size: 256,
        quality: String::from_str("75"),
        background: Background::Alpha,
    };
    let ghost texts = pair_texts(pairs@);
    let mut i: usize = 0;
    while i < pairs.len()
        invariant
            i <= pairs.len(),
            texts == pair_texts(pairs@),
            options_of(texts.take(i as int)) == Some(options@),
        decreases pairs.len() - i,
    {
        proof {
            assert(texts.take(i + 1).drop_last() =~= texts.take(i as int));
        }
        let accepted = read_option(&mut options, pairs[i].0.as_str(), pairs[i].1.as_str());
        if !accepted {
            proof {
                lemma_refusal_stays(texts, i + 1);
            }
            return None;
        }
        i += 1;
    }
    proof {
        assert(texts.take(pairs.len() as int) =~= texts);
    }
    Some(options)
}

/// The quality of accepted options is written as a decimal floating-point
/// literal, whatever the pairs.
pub proof fn lemma_quality_is_literal(pairs: Seq<(Seq<char>, Seq<char>)>)
    ensures
        options_of(pairs) matches Some(options) ==> is_float_literal(options.quality),
    decreases pairs.len(),
{
    if pairs.len() == 0 {
        let text = "75"@;
        reveal_strlit("75");
        assert(digits_end(text, 2) == 2);
        assert(digits_end(text, 1) == 2);
    } else {
        lemma_quality_is_literal(pairs.drop_last());
    }
}

/// Once the first `count` pairs are refused, so are all of them.
proof fn lemma_refusal_stays(pairs: Seq<(Seq<char>, Seq<char>)>, count: int)
    requires
        0 <= count <= pairs.len(),
        options_of(pairs.take(count)) is None,
    ensures
        options_of(pairs) is None,
    decreases pairs.len(),
{
    if count == pairs.len() {
        assert(pairs.take(count) =~= pairs);
    } else {
        assert(pairs.drop_last().take(count) =~= pairs.take(count));
        lemma_refusal_stays(pairs.drop_last(), count);
    }
}

/// Decides what a request asks for from the path of its target and the
/// pairs of its query. The options are read first.
pub fn route(path: &str, pairs: &Vec<(String, String)>) -> (r: Result<TileRequest, Status>)
    ensures
        match request_of(path@, pair_texts(pairs@)) {
            Ok(request) => r is Ok && r->Ok_0@ == request,
            Err(status) => r is Err && r->Err_0 == status,
        },
{
    let options = match read_options(pairs) {
        Some(options) => options,
        None => { return Err(Status::BadRequest); },
    };
    match parse_tile_path(path) {
        Some((address, format)) => Ok(TileRequest { address, format, options }),
        None => Err(Status::NotFound),
    }
}

} // verus!
