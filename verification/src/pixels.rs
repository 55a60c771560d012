//! The output buffer: rows of pixels, each pixel three or four 8-bit
//! samples, and the operations that fill it.
//!
//! Sample `k` of the pixel in row `r` and column `c` of an output that is
//! `w` pixels wide with `n` samples a pixel stands at index
//! `(r * w + c) * n + k`.

use crate::background::Background;
use crate::window::ReadPlan;
use vstd::arithmetic::div_mod::{lemma_fundamental_div_mod, lemma_fundamental_div_mod_converse};
use vstd::prelude::*;

verus! {

/// Samples per output pixel: four where the raster has four bands and the
/// background is transparent, else three.
pub open spec fn channel_count(bands: int, background: Background) -> int {
    if bands == 4 && background is Alpha {
        4
    } else {
        3
    }
}

/// Sample `channel` of a background pixel: zero throughout for a transparent
/// background, the fill colour with full opacity otherwise.
pub open spec fn background_sample(background: Background, channel: int) -> u8 {
    match background {
        Background::Alpha => 0u8,
        Background::Rgb(r, g, b) => if channel == 0 {
            r
        } else if channel == 1 {
            g
        } else if channel == 2 {
            b
        } else {
            255u8
        },
    }
}

/// A buffer of `count` background pixels.
pub open spec fn background_pixels(background: Background, channels: int, count: int) -> Seq<u8> {
    Seq::new((count * channels) as nat, |i: int| background_sample(background, i % channels))
}

/// `source` over `existing` at opacity `alpha` of 255, rounded down.
pub open spec fn blend(source: u8, alpha: u8, existing: u8) -> u8 {
    ((source as int * alpha as int + existing as int * (255 - alpha as int)) / 255) as u8
}

/// `value` scaled by `alpha` of 255, rounded down.
pub open spec fn premultiplied(value: u8, alpha: u8) -> u8 {
    (value as int * alpha as int / 255) as u8
}

/// The index, in a fetched band, of the sample that belongs to output index
/// `index`; `None` where the output pixel is not covered by what was fetched.
pub open spec fn sample_index(plan: ReadPlan, channels: int, index: int) -> Option<int> {
    let pixel = index / channels;
    let row = pixel / (plan.out_width as int);
    let col = pixel % (plan.out_width as int);
    if plan.covers(row, col) {
        Some((row - plan.off_y) * plan.read_width + (col - plan.off_x))
    } else {
        None
    }
}

/// Output sample `index` after band `band` was blended into `pixels`: where
/// the sample is of that band, is covered and its mask is not zero, the
/// fetched sample (blended over what was there where there is an alpha
/// band); what was there otherwise.
pub open spec fn blended_sample(
    pixels: Seq<u8>,
    plan: ReadPlan,
    channels: int,
    band: int,
    mask: Seq<u8>,
    data: Seq<u8>,
    alpha: Option<Seq<u8>>,
    index: int,
) -> u8 {
    match sample_index(plan, channels, index) {
        Some(j) => if index % channels == band && mask[j] != 0 {
            match alpha {
                Some(a) => blend(data[j], a[j], pixels[index]),
                None => data[j],
            }
        } else {
            pixels[index]
        },
        None => pixels[index],
    }
}

/// The buffer after band `band` was blended into `pixels`.
pub open spec fn blended_band(
    pixels: Seq<u8>,
    plan: ReadPlan,
    channels: int,
    band: int,
    mask: Seq<u8>,
    data: Seq<u8>,
    alpha: Option<Seq<u8>>,
) -> Seq<u8> {
    Seq::new(
        pixels.len(),
        |i: int| blended_sample(pixels, plan, channels, band, mask, data, alpha, i),
    )
}

/// A four-sample buffer with each colour sample scaled by its pixel's alpha
/// sample; the alpha samples are kept.
pub open spec fn premultiplied_pixels(pixels: Seq<u8>) -> Seq<u8> {
    Seq::new(
        pixels.len(),
        |i: int|
            if i % 4 == 3 {
                pixels[i]
            } else {
                premultiplied(pixels[i], pixels[i - i % 4 + 3])
            },
    )
}

/// The samples of an optional band.
pub open spec fn optional_samples(band: Option<&Vec<u8>>) -> Option<Seq<u8>> {
    match band {
        Some(samples) => Some(samples@),
        None => None,
    }
}

proof fn lemma_blend_fits(source: int, alpha: int, existing: int)
    by (nonlinear_arith)
    requires
        0 <= source <= 255,
        0 <= alpha <= 255,
        0 <= existing <= 255,
    ensures
        0 <= source * alpha,
        0 <= existing * (255 - alpha),
        source * alpha + existing * (255 - alpha) <= 65025,
        (source * alpha + existing * (255 - alpha)) / 255 <= 255,
{
}

proof fn lemma_scale_fits(value: int, alpha: int)
    by (nonlinear_arith)
    requires
        0 <= value <= 255,
        0 <= alpha <= 255,
    ensures
        0 <= value * alpha <= 65025,
        value * alpha / 255 <= 255,
{
}

/// Samples per output pixel for a raster of `bands` bands.
pub fn output_channels(bands: usize, background: Background) -> (n: usize)
    ensures
        n == channel_count(bands as int, background),
        n == 4 <==> bands == 4 && background is Alpha,
        n == 3 || n == 4,
{
    match background {
        Background::Alpha => if bands == 4 {
            4
        } else {
            3
        },
        Background::Rgb(_, _, _) => 3,
    }
}

/// Composites `source` over `existing` at opacity `alpha` of 255.
pub fn blend_sample(source: u8, alpha: u8, existing: u8) -> (r: u8)
    ensures
        r == blend(source, alpha, existing),
{
    proof {
        lemma_blend_fits(source as int, alpha as int, existing as int);
    }
    let opacity: u16 = alpha as u16;
    let sum: u16 = source as u16 * opacity + existing as u16 * (255 - opacity);
    (sum / 255) as u8
}

/// Scales `value` by `alpha` of 255.
pub fn premultiply_sample(value: u8, alpha: u8) -> (r: u8)
    ensures
        r == premultiplied(value, alpha),
{
    proof {
        lemma_scale_fits(value as int, alpha as int);
    }
    let product: u16 = value as u16 * alpha as u16;
    (product / 255) as u8
}

/// Sample `channel` of a background pixel.
pub fn background_channel(background: Background, channel: usize) -> (r: u8)
    ensures
        r == background_sample(background, channel as int),
{
    match background {
        Background::Alpha => 0,
        Background::Rgb(r, g, b) => if channel == 0 {
            r
        } else if channel == 1 {
            g
        } else if channel == 2 {
            b
        } else {
            255
        },
    }
}

/// A buffer of `count` background pixels of `channels` samples each.
pub fn fill_background(background: Background, channels: usize, count: usize) -> (buffer: Vec<u8>)
    requires
        0 < channels,
        count * channels <= usize::MAX,
    ensures
        buffer@ == background_pixels(background, channels as int, count as int),
        buffer.len() == count * channels,
{
    let total: usize = count * channels;
    let mut buffer: Vec<u8> = Vec::with_capacity(total);
    let mut channel: usize = 0;
    while buffer.len() < total
        invariant
            0 < channels,
            total == count * channels,
            buffer.len() <= total,
            channel < channels,
            channel == (buffer.len() as int) % (channels as int),
            forall|i: int|
                0 <= i < buffer.len() ==> #[trigger] buffer[i] == background_sample(
                    background,
                    i % (channels as int),
                ),
        decreases total - buffer.len(),
    {
        let sample = background_channel(background, channel);
        proof {
            lemma_next_channel(buffer.len() as int, channels as int);
        }
        buffer.push(sample);
        channel = if channel + 1 == channels {
            0
        } else {
            channel + 1
        };
    }
    proof {
        assert(buffer@ =~= background_pixels(background, channels as int, count as int));
    }
    buffer
}

proof fn lemma_next_channel(index: int, channels: int)
    requires
        0 <= index,
        0 < channels,
    ensures
        (index + 1) % channels == if index % channels + 1 == channels {
            0
        } else {
            index % channels + 1
        },
{
    lemma_fundamental_div_mod(index, channels);
    let q = index / channels;
    let r = index % channels;
    if r + 1 == channels {
        assert(index + 1 == (q + 1) * channels + 0) by (nonlinear_arith)
            requires
                index == channels * q + r,
                r + 1 == channels,
        ;
        lemma_fundamental_div_mod_converse(index + 1, channels, q + 1, 0);
    } else {
        assert(index + 1 == q * channels + (r + 1)) by (nonlinear_arith)
            requires
                index == channels * q + r,
        ;
        lemma_fundamental_div_mod_converse(index + 1, channels, q, r + 1);
    }
}

/// The index of sample `channel` of the pixel at (`row`, `col`) splits back
/// into its row, column and channel.
pub(crate) proof fn lemma_index_splits(width: int, channels: int, row: int, col: int, channel: int)
    requires
        0 <= row,
        0 <= col < width,
        0 <= channel < channels,
    ensures
        ({
            let index = (row * width + col) * channels + channel;
            &&& 0 <= row * width + col
            &&& 0 <= index
            &&& index % channels == channel
            &&& index / channels == row * width + col
            &&& (index / channels) / width == row
            &&& (index / channels) % width == col
        }),
{
    let pixel = row * width + col;
    let index = pixel * channels + channel;
    assert(0 <= row * width) by (nonlinear_arith)
        requires
            0 <= row,
            0 <= width,
    ;
    assert(0 <= pixel * channels) by (nonlinear_arith)
        requires
            0 <= pixel,
            0 <= channels,
    ;
    lemma_fundamental_div_mod_converse(index, channels, pixel, channel);
    lemma_fundamental_div_mod_converse(pixel, width, row, col);
}

/// An index within a buffer of `width * height` pixels lies in a row below
/// `height`.
proof fn lemma_index_row(width: int, height: int, channels: int, index: int)
    requires
        0 < channels,
        0 <= index < width * height * channels,
        0 <= width,
        0 <= height,
    ensures
        0 < width,
        0 <= index / channels < width * height,
        0 <= (index / channels) / width < height,
        0 <= (index / channels) % width < width,
        index == ((index / channels / width) * width + (index / channels) % width) * channels
            + index % channels,
        0 <= index % channels < channels,
{
    assert(width != 0) by (nonlinear_arith)
        requires
            0 <= index < width * height * channels,
    ;
    let pixel = index / channels;
    lemma_fundamental_div_mod(index, channels);
    assert(0 <= pixel < width * height) by (nonlinear_arith)
        requires
            index == channels * pixel + index % channels,
            0 <= index % channels < channels,
            0 <= index < width * height * channels,
    ;
    lemma_fundamental_div_mod(pixel, width);
    let row = pixel / width;
    assert(0 <= row < height) by (nonlinear_arith)
        requires
            pixel == width * row + pixel % width,
            0 <= pixel % width < width,
            0 <= pixel < width * height,
    ;
    assert(index == (row * width + pixel % width) * channels + index % channels)
        by (nonlinear_arith)
        requires
            index == channels * pixel + index % channels,
            pixel == width * row + pixel % width,
    ;
}

/// The index of a sample of the output lies within the output.
pub(crate) proof fn lemma_index_fits(
    width: int,
    height: int,
    channels: int,
    row: int,
    col: int,
    channel: int,
)
    requires
        0 <= row < height,
        0 <= col < width,
        0 <= channel < channels,
    ensures
        0 <= (row * width + col) * channels + channel < width * height * channels,
{
    assert(0 <= row * width && row * width + col < width * height) by (nonlinear_arith)
        requires
            0 <= row < height,
            0 <= col < width,
    ;
    let pixel = row * width + col;
    assert(0 <= pixel * channels && pixel * channels + channel < width * height * channels)
        by (nonlinear_arith)
        requires
            0 <= pixel < width * height,
            0 <= channel < channels,
    ;
}

/// The index arithmetic of one blended sample stays within the buffers.
proof fn lemma_blend_indices(plan: ReadPlan, channels: int, band: int, y: int, x: int)
    requires
        plan.wf(),
        0 <= band < channels,
        0 <= y < plan.read_height,
        0 <= x < plan.read_width,
    ensures
        0 <= y * plan.read_width + x < plan.samples(),
        0 <= (y + plan.off_y) * plan.out_width,
        (y + plan.off_y) * plan.out_width + (x + plan.off_x) < plan.out_width * plan.out_height,
        0 <= ((y + plan.off_y) * plan.out_width + (x + plan.off_x)) * channels,
        ((y + plan.off_y) * plan.out_width + (x + plan.off_x)) * channels + band < plan.out_width
            * plan.out_height * channels,
{
    let rw = plan.read_width as int;
    let rh = plan.read_height as int;
    let w = plan.out_width as int;
    let h = plan.out_height as int;
    let row = y + plan.off_y;
    let col = x + plan.off_x;
    assert(0 <= y * rw && y * rw + x < rw * rh) by (nonlinear_arith)
        requires
            0 <= y < rh,
            0 <= x < rw,
    ;
    assert(0 <= row * w && row * w + col < w * h) by (nonlinear_arith)
        requires
            0 <= row < h,
            0 <= col < w,
    ;
    let pixel = row * w + col;
    assert(0 <= pixel * channels && pixel * channels + band < w * h * channels)
        by (nonlinear_arith)
        requires
            0 <= pixel < w * h,
            0 <= band < channels,
    ;
}

/// Whether the sample at `index` was reached once rows of the fetched band
/// before `y`, and columns before `x` of row `y`, have been blended.
spec fn reached(plan: ReadPlan, channels: int, index: int, y: int, x: int) -> bool {
    let pixel = index / channels;
    let row = pixel / (plan.out_width as int);
    let col = pixel % (plan.out_width as int);
    plan.covers(row, col) && (row - plan.off_y < y || (row - plan.off_y == y && col - plan.off_x
        < x))
}

/// Blends one fetched band into the output.
///
/// `buffer` holds the output, `mask` and `data` the band's fetched validity
/// mask and samples, `alpha` the fetched alpha band where the output has
/// one. Each covered sample of channel `band` whose mask is not zero is
/// written: as fetched without an alpha band, else blended over what the
/// buffer holds there. All other samples are kept.
pub fn blend_band(
    buffer: &mut Vec<u8>,
    plan: &ReadPlan,
    channels: usize,
    band: usize,
    mask: &Vec<u8>,
    data: &Vec<u8>,
    alpha: Option<&Vec<u8>>,
)
    requires
        plan.wf(),
        band < channels,
        old(buffer).len() == plan.out_width * plan.out_height * channels,
        mask.len() == plan.samples(),
        data.len() == plan.samples(),
        alpha matches Some(a) ==> a.len() == plan.samples(),
    ensures
        final(buffer)@ == blended_band(
            old(buffer)@,
            *plan,
            channels as int,
            band as int,
            mask@,
            data@,
            optional_samples(alpha),
        ),
{
    let ghost before = buffer@;
    let ghost an = optional_samples(alpha);
    let ghost n = channels as int;
    let ghost b = band as int;
    let mut y: usize = 0;
    while y < plan.read_height
        invariant
            plan.wf(),
            band < channels,
            n == channels,
            b == band,
            an == optional_samples(alpha),
            y <= plan.read_height,
            buffer.len() == before.len(),
            before.len() == plan.out_width * plan.out_height * channels,
            mask.len() == plan.samples(),
            data.len() == plan.samples(),
            alpha matches Some(a) ==> a.len() == plan.samples(),
            forall|i: int|
                0 <= i < before.len() ==> #[trigger] buffer[i] == if reached(*plan, n, i, y as int, 0) {
                    blended_sample(before, *plan, n, b, mask@, data@, an, i)
                } else {
                    before[i]
                },
        decreases plan.read_height - y,
    {
        let mut x: usize = 0;
        while x < plan.read_width
            invariant
                plan.wf(),
                band < channels,
                n == channels,
                b == band,
                an == optional_samples(alpha),
                y < plan.read_height,
                x <= plan.read_width,
                buffer.len() == before.len(),
                before.len() == plan.out_width * plan.out_height * channels,
                mask.len() == plan.samples(),
                data.len() == plan.samples(),
                alpha matches Some(a) ==> a.len() == plan.samples(),
                forall|i: int|
                    0 <= i < before.len() ==> #[trigger] buffer[i] == if reached(
                        *plan,
                        n,
                        i,
                        y as int,
                        x as int,
                    ) {
                        blended_sample(before, *plan, n, b, mask@, data@, an, i)
                    } else {
                        before[i]
                    },
            decreases plan.read_width - x,
        {
            proof {
                lemma_blend_indices(*plan, n, b, y as int, x as int);
                lemma_index_splits(
                    plan.out_width as int,
                    n,
                    y + plan.off_y,
                    x + plan.off_x,
                    b,
                );
            }
            let j: usize = y * plan.read_width + x;
            let target: usize = ((y + plan.off_y) * plan.out_width + (x + plan.off_x)) * channels
                + band;
            let ghost held = buffer@;
            if mask[j] != 0 {
                let sample = match alpha {
                    Some(a) => blend_sample(data[j], a[j], buffer[target]),
                    None => data[j],
                };
                buffer.set(target, sample);
            }
            proof {
                assert forall|i: int| 0 <= i < before.len() implies #[trigger] buffer[i] == if reached(
                    *plan,
                    n,
                    i,
                    y as int,
                    x + 1,
                ) {
                    blended_sample(before, *plan, n, b, mask@, data@, an, i)
                } else {
                    before[i]
                } by {
                    lemma_index_row(plan.out_width as int, plan.out_height as int, n, i);
                    assert(held[i] == if reached(*plan, n, i, y as int, x as int) {
                        blended_sample(before, *plan, n, b, mask@, data@, an, i)
                    } else {
                        before[i]
                    });
                }
            }
            x += 1;
        }
        proof {
            assert forall|i: int| 0 <= i < before.len() implies #[trigger] buffer[i] == if reached(
                *plan,
                n,
                i,
                y + 1,
                0,
            ) {
                blended_sample(before, *plan, n, b, mask@, data@, an, i)
            } else {
                before[i]
            } by {
                assert(reached(*plan, n, i, y + 1, 0) == reached(
                    *plan,
                    n,
                    i,
                    y as int,
                    plan.read_width as int,
                ));
            }
        }
        y += 1;
    }
    proof {
        assert forall|i: int| 0 <= i < before.len() implies #[trigger] buffer[i] == blended_sample(
            before,
            *plan,
            n,
            b,
            mask@,
            data@,
            an,
            i,
        ) by {
            if !reached(*plan, n, i, plan.read_height as int, 0) {
                assert(sample_index(*plan, n, i) is None);
            }
        }
        assert(buffer@ =~= blended_band(before, *plan, n, b, mask@, data@, an));
    }
}

/// Scales the colour samples of each four-sample pixel by the pixel's alpha
/// sample.
pub fn premultiply(buffer: &mut Vec<u8>)
    requires
        old(buffer).len() % 4 == 0,
    ensures
        final(buffer)@ == premultiplied_pixels(old(buffer)@),
{
    let ghost before = buffer@;
    let total: usize = buffer.len();
    let mut start: usize = 0;
    while start < total
        invariant
            total == before.len(),
            buffer.len() == total,
            total % 4 == 0,
            start % 4 == 0,
            start <= total,
            forall|i: int|
                0 <= i < start ==> #[trigger] buffer[i] == premultiplied_pixels(before)[i],
            forall|i: int| start <= i < total ==> #[trigger] buffer[i] == before[i],
        decreases total - start,
    {
        let alpha = buffer[start + 3];
        let red = premultiply_sample(buffer[start], alpha);
        let green = premultiply_sample(buffer[start + 1], alpha);
        let blue = premultiply_sample(buffer[start + 2], alpha);
        buffer.set(start, red);
        buffer.set(start + 1, green);
        buffer.set(start + 2, blue);
        start += 4;
    }
    proof {
        assert(buffer@ =~= premultiplied_pixels(before));
    }
}

} // verus!
