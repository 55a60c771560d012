//! Encoding a finished tile as a JPEG image.

use crate::error::ProcessingError;
use image::codecs::jpeg::JpegEncoder;
use image::{ExtendedColorType, ImageEncoder, ImageError};
use std::io::Cursor;
use vstd::prelude::*;

verus! {

/// `image::ImageError`, the error of `image`'s encoders. It is carried, and
/// nothing is known of what it holds.
#[verifier::external_type_specification]
#[verifier::external_body]
pub struct ExImageError(image::ImageError);

/// The bytes that `image`'s JPEG encoder writes for an image of `width` by
/// `height` pixels of three samples each at `quality`; `None` where it
/// fails.
pub uninterp spec fn jpeg_of(pixels: Seq<u8>, width: u32, height: u32, quality: u8) -> Option<
    Seq<u8>,
>;

/// `image::codecs::jpeg::JpegEncoder::new_with_quality` with
/// `image::ImageEncoder::write_image`, writing to memory: the encoder is
/// made for `quality` and given the pixels as 8-bit RGB. What it writes, and
/// whether it fails, depends on these arguments alone. It panics unless
/// there are three samples for each pixel, which `requires` leaves out.
#[verifier::external_body]
fn write_jpeg(pixels: &Vec<u8>, width: u32, height: u32, quality: u8) -> (r: Result<
    Vec<u8>,
    ImageError,
>)
    requires
        pixels.len() == width * height * 3,
    ensures
        match r {
            Ok(bytes) => jpeg_of(pixels@, width, height, quality) == Some(bytes@),
            Err(_) => jpeg_of(pixels@, width, height, quality) is None,
        },
{
    let mut bytes = Vec::new();
    let encoder = JpegEncoder::new_with_quality(Cursor::new(&mut bytes), quality);
    encoder.write_image(pixels, width, height, ExtendedColorType::Rgb8)?;
    Ok(bytes)
}

/// What becomes of the encoder's result: its bytes, or an encoding error.
pub fn jpeg_outcome(result: Result<Vec<u8>, ImageError>) -> (r: Result<Vec<u8>, ProcessingError>)
    ensures
        match result {
            Ok(bytes) => r == Ok::<Vec<u8>, ProcessingError>(bytes),
            Err(_) => r == Err::<Vec<u8>, ProcessingError>(ProcessingError::ImageEncodingError),
        },
{
    match result {
        Ok(bytes) => Ok(bytes),
        Err(_) => Err(ProcessingError::ImageEncodingError),
    }
}

/// The JPEG image of a square tile, or `None` for a tile that cannot be
/// one: JPEG has no alpha, so a tile with alpha samples, or any buffer that
/// does not hold three samples for each pixel, is refused.
pub open spec fn jpeg_tile(pixels: Seq<u8>, has_alpha: bool, size: u32, quality: u8) -> Option<
    Seq<u8>,
> {
    if has_alpha || pixels.len() != size * size * 3 {
        None
    } else {
        jpeg_of(pixels, size, size, quality)
    }
}

proof fn lemma_square_fits(size: int)
    by (nonlinear_arith)
    requires
        0 <= size <= u32::MAX,
    ensures
        0 <= size * size <= 0xffff_fffe_0000_0001,
{
}

/// Encodes a square tile of `size` by `size` pixels as a JPEG image at
/// `quality`.
pub fn encode_jpeg(pixels: &Vec<u8>, has_alpha: bool, size: u32, quality: u8) -> (r: Result<
    Vec<u8>,
    ProcessingError,
>)
    ensures
        match jpeg_tile(pixels@, has_alpha, size, quality) {
            Some(bytes) => r is Ok && r->Ok_0@ == bytes,
            None => r == Err::<Vec<u8>, ProcessingError>(ProcessingError::ImageEncodingError),
        },
{
    if has_alpha {
        return Err(ProcessingError::ImageEncodingError);
    }
    proof {
        lemma_square_fits(size as int);
    }
    let expected: u128 = size as u128 * size as u128 * 3;
    if pixels.len() as u128 != expected {
        return Err(ProcessingError::ImageEncodingError);
    }
    jpeg_outcome(write_jpeg(pixels, size, size, quality))
}

} // verus!
