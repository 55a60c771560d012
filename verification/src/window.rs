//! From a requested box, in the raster's pixel grid, to the window that is
//! read and the place of what was read in the output tile.
//!
//! A box may reach beyond the raster on any side. Only the part inside the
//! raster is read; it is read at a size that keeps the scale of the whole
//! box, and placed in the output where that part of the box lies.

use crate::error::ReadError;
use vstd::arithmetic::div_mod::lemma_fundamental_div_mod_converse;
use vstd::prelude::*;

verus! {

/// The corners of a requested box as pixel coordinates of the raster, each
/// rounded to the nearest pixel. `min_y` is the pixel row of the box's upper
/// edge. Nothing is assumed of their order or of their place.
#[derive(Clone, Copy, Debug, PartialEq, Eq, Structural)]
pub struct PixelBounds {
    pub min_x: isize,
    pub max_x: isize,
    pub min_y: isize,
    pub max_y: isize,
}

/// The region of the raster to sample: the requested box cut to the raster,
/// and on which sides it was cut.
#[derive(Clone, Copy, Debug, PartialEq, Eq, Structural)]
pub struct PixelWindow {
    pub x: usize,
    pub y: usize,
    pub width: usize,
    pub height: usize,
    /// Whether the box began outside the raster's columns.
    pub clamped_left: bool,
    /// Whether the box began outside the raster's rows.
    pub clamped_top: bool,
    /// Whether the box ended after the raster's last column.
    pub clamped_right: bool,
    /// Whether the box ended after the raster's last row.
    pub clamped_bottom: bool,
}

/// One axis of a resolved window.
#[derive(Clone, Copy, Debug, PartialEq, Eq, Structural)]
pub struct AxisWindow {
    /// First pixel of the window, within `0..=raster`.
    pub origin: usize,
    /// Number of raster pixels in the window.
    pub extent: usize,
    /// Number of samples to fetch for the window.
    pub read: usize,
    /// Where the first sample lands in the output.
    pub offset: usize,
    /// Whether the box began outside `0..=raster`.
    pub clamped_low: bool,
    /// Whether the box ended after `raster`.
    pub clamped_high: bool,
}

/// What to fetch for a tile and where it goes in the output.
#[derive(Clone, Copy, Debug, PartialEq, Eq, Structural)]
pub struct ReadPlan {
    pub window: PixelWindow,
    /// Size at which the window is fetched: at most the output size.
    pub read_width: usize,
    pub read_height: usize,
    /// Column and row of the output at which the first fetched sample lands.
    pub off_x: usize,
    pub off_y: usize,
    /// Size of the output tile.
    pub out_width: usize,
    pub out_height: usize,
}

impl ReadPlan {
    /// What was fetched fits in the output at its offset.
    pub open spec fn wf(&self) -> bool {
        &&& self.off_x + self.read_width <= self.out_width
        &&& self.off_y + self.read_height <= self.out_height
    }

    /// Number of samples in one fetched band.
    pub open spec fn samples(&self) -> int {
        self.read_width * self.read_height
    }

    /// Whether output pixel (`row`, `col`) is covered by what was fetched.
    pub open spec fn covers(&self, row: int, col: int) -> bool {
        &&& self.off_y <= row < self.off_y + self.read_height
        &&& self.off_x <= col < self.off_x + self.read_width
    }
}

/// The window's first pixel: `low` brought into `0..=raster`.
pub open spec fn clamp_origin(low: int, raster: int) -> int {
    if low < 0 {
        0
    } else if low > raster {
        raster
    } else {
        low
    }
}

/// The number of raster pixels between the clamped origin and the lesser of
/// `high` and `raster`; zero where there are none.
pub open spec fn clamp_extent(low: int, high: int, raster: int) -> int {
    let end = if high < raster {
        high
    } else {
        raster
    };
    if end > clamp_origin(low, raster) {
        end - clamp_origin(low, raster)
    } else {
        0
    }
}

/// The number of samples fetched: the output size scaled by the share of the
/// box that lies in the raster, rounded down.
pub open spec fn read_extent(low: int, high: int, raster: int, out: int) -> int {
    if high > low {
        out * clamp_extent(low, high, raster) / (high - low)
    } else {
        0
    }
}

/// `n / d` rounded to the nearest integer, a half upward, for `0 <= n` and
/// `0 < d`.
pub open spec fn round_ratio(n: int, d: int) -> int {
    (2 * n + d) / (2 * d)
}

/// Where the fetched samples start in the output.
///
/// A box that starts inside the raster puts them at the low edge. A box that
/// holds the whole raster puts them where the raster starts within the box.
/// Any other box puts them against the high edge.
pub open spec fn place_offset(low: int, high: int, raster: int, out: int) -> int {
    if clamp_origin(low, raster) == low {
        0
    } else if low <= 0 && high >= raster {
        round_ratio(out * (-low), high - low)
    } else {
        out - read_extent(low, high, raster, out)
    }
}

/// The resolved axis of a box from `low` to `high` over a raster of `raster`
/// pixels, for an output of `out` pixels.
pub open spec fn axis_of(low: int, high: int, raster: int, out: int) -> AxisWindow {
    AxisWindow {
        origin: clamp_origin(low, raster) as usize,
        extent: clamp_extent(low, high, raster) as usize,
        read: read_extent(low, high, raster, out) as usize,
        offset: place_offset(low, high, raster, out) as usize,
        clamped_low: clamp_origin(low, raster) != low,
        clamped_high: high > raster,
    }
}

/// The window of two resolved axes.
pub open spec fn window_of(x: AxisWindow, y: AxisWindow) -> PixelWindow {
    PixelWindow {
        x: x.origin,
        y: y.origin,
        width: x.extent,
        height: y.extent,
        clamped_left: x.clamped_low,
        clamped_top: y.clamped_low,
        clamped_right: x.clamped_high,
        clamped_bottom: y.clamped_high,
    }
}

/// The plan for `bounds` over a raster of `raster` pixels (width, height) and
/// an output of `size` pixels; `None` for a box without width or height.
pub open spec fn plan_of(raster: (usize, usize), bounds: PixelBounds, size: (usize, usize)) -> Option<
    ReadPlan,
> {
    if bounds.max_x == bounds.min_x || bounds.max_y == bounds.min_y {
        None
    } else {
        let x = axis_of(bounds.min_x as int, bounds.max_x as int, raster.0 as int, size.0 as int);
        let y = axis_of(bounds.min_y as int, bounds.max_y as int, raster.1 as int, size.1 as int);
        Some(
            ReadPlan {
                window: window_of(x, y),
                read_width: x.read,
                read_height: y.read,
                off_x: x.offset,
                off_y: y.offset,
                out_width: size.0,
                out_height: size.1,
            },
        )
    }
}

proof fn lemma_product_fits(a: int, b: int, bound: int)
    by (nonlinear_arith)
    requires
        0 <= a <= bound,
        0 <= b <= bound,
    ensures
        0 <= a * b <= bound * bound,
{
}

proof fn lemma_share_is_bounded(out: int, part: int, whole: int)
    by (nonlinear_arith)
    requires
        0 <= out,
        0 <= part <= whole,
        0 < whole,
    ensures
        0 <= out * part / whole <= out,
{
}

proof fn lemma_whole_share(out: int, whole: int)
    by (nonlinear_arith)
    requires
        0 < whole,
    ensures
        out * whole / whole == out,
{
}

proof fn lemma_read_extent_is_bounded(low: int, high: int, raster: int, out: int)
    requires
        0 <= raster,
        0 <= out,
    ensures
        0 <= read_extent(low, high, raster, out) <= out,
{
    if high > low {
        lemma_share_is_bounded(out, clamp_extent(low, high, raster), high - low);
    }
}

proof fn lemma_round_ratio(n: int, d: int)
    requires
        0 <= n,
        0 < d,
    ensures
        round_ratio(n, d) == n / d + if 2 * (n % d) >= d {
            1int
        } else {
            0int
        },
{
    let q = n / d;
    let r = n % d;
    assert(n == q * d + r && 0 <= r < d) by (nonlinear_arith)
        requires
            q == n / d,
            r == n % d,
            0 < d,
    ;
    if 2 * r >= d {
        assert(2 * n + d == (q + 1) * (2 * d) + (2 * r - d)) by (nonlinear_arith)
            requires
                n == q * d + r,
        ;
        lemma_fundamental_div_mod_converse(2 * n + d, 2 * d, q + 1, 2 * r - d);
    } else {
        assert(2 * n + d == q * (2 * d) + (2 * r + d)) by (nonlinear_arith)
            requires
                n == q * d + r,
        ;
        lemma_fundamental_div_mod_converse(2 * n + d, 2 * d, q, 2 * r + d);
    }
}

/// Where the box holds the whole raster, the raster's share of the output and
/// the rounded share of what lies before it fit in the output together.
proof fn lemma_enclosing_fits(out: int, raster: int, before: int, span: int)
    requires
        0 <= out,
        0 <= raster,
        0 <= before,
        raster + before <= span,
        0 < span,
    ensures
        0 <= out * raster / span,
        0 <= round_ratio(out * before, span),
        out * raster / span + round_ratio(out * before, span) <= out,
{
    let a = out * raster;
    let b = out * before;
    let read = a / span;
    let off = (2 * b + span) / (2 * span);
    assert(0 <= a && 0 <= b && a + b <= out * span) by (nonlinear_arith)
        requires
            a == out * raster,
            b == out * before,
            0 <= out,
            0 <= raster,
            0 <= before,
            raster + before <= span,
    ;
    assert(0 <= read && read * span <= a) by (nonlinear_arith)
        requires
            read == a / span,
            0 <= a,
            0 < span,
    ;
    assert(0 <= off && off * (2 * span) <= 2 * b + span) by (nonlinear_arith)
        requires
            off == (2 * b + span) / (2 * span),
            0 <= b,
            0 < span,
    ;
    assert(read + off <= out) by (nonlinear_arith)
        requires
            read * span <= a,
            off * (2 * span) <= 2 * b + span,
            a + b <= out * span,
            0 < span,
    ;
}

/// `out * part / whole`, for a part of a whole.
fn scaled(out: usize, part: usize, whole: u128) -> (r: usize)
    requires
        0 < whole,
        part <= whole,
    ensures
        r == out * part / (whole as int),
        r <= out,
{
    proof {
        lemma_product_fits(out as int, part as int, u64::MAX as int);
        lemma_share_is_bounded(out as int, part as int, whole as int);
    }
    let product: u128 = (out as u128) * (part as u128);
    (product / whole) as usize
}

/// `out * before / span`, rounded to the nearest integer.
fn scaled_rounded(out: usize, before: u128, span: u128) -> (r: u128)
    requires
        0 < span <= 2 * (u64::MAX as int),
        before <= 0x8000_0000_0000_0000,
    ensures
        r == round_ratio(out * before, span as int),
{
    proof {
        lemma_product_fits(out as int, before as int, u64::MAX as int);
        lemma_round_ratio(out * before, span as int);
    }
    let product: u128 = (out as u128) * before;
    let quotient: u128 = product / span;
    let rest: u128 = product % span;
    if 2 * rest >= span {
        proof {
            assert(quotient <= product) by (nonlinear_arith)
                requires
                    quotient == product / span,
                    0 < span,
            ;
        }
        quotient + 1
    } else {
        quotient
    }
}

/// Resolves one axis of a request: the box runs from pixel `low` to pixel
/// `high` of a raster that is `raster` pixels long, and the output is `out`
/// pixels long. A box of no length has no window.
pub fn resolve_axis(low: isize, high: isize, raster: usize, out: usize) -> (r: Option<AxisWindow>)
    ensures
        r is None <==> high == low,
        r matches Some(w) ==> {
            &&& w == axis_of(low as int, high as int, raster as int, out as int)
            &&& w.origin == clamp_origin(low as int, raster as int)
            &&& w.extent == clamp_extent(low as int, high as int, raster as int)
            &&& w.read == read_extent(low as int, high as int, raster as int, out as int)
            &&& w.offset == place_offset(low as int, high as int, raster as int, out as int)
            &&& w.origin + w.extent <= raster
            &&& w.offset + w.read <= out
        },
{
    if high == low {
        return None;
    }
    let span: i128 = high as i128 - low as i128;
    let reach: i128 = raster as i128;
    let origin: usize = if low < 0 {
        0
    } else if low as i128 > reach {
        raster
    } else {
        low as usize
    };
    let end: i128 = if (high as i128) < reach {
        high as i128
    } else {
        reach
    };
    let extent: usize = if end > origin as i128 {
        (end - origin as i128) as usize
    } else {
        0
    };
    let read: usize = if span > 0 {
        scaled(out, extent, span as u128)
    } else {
        0
    };
    let inside: bool = low >= 0 && low as i128 <= reach;
    let offset: usize = if inside {
        0
    } else if low <= 0 && high as i128 >= reach {
        proof {
            lemma_enclosing_fits(out as int, raster as int, -(low as int), span as int);
        }
        scaled_rounded(out, (-(low as i128)) as u128, span as u128) as usize
    } else {
        out - read
    };
    Some(
        AxisWindow {
            origin,
            extent,
            read,
            offset,
            clamped_low: !inside,
            clamped_high: high as i128 > reach,
        },
    )
}

/// Resolves the window to read for a tile.
///
/// `raster` is the raster's size in pixels (width, height), `bounds` the
/// requested box in the raster's pixel grid, `size` the output size in
/// pixels (width, height). Fails for a box that is zero pixels wide or high.
pub fn resolve_window(raster: (usize, usize), bounds: PixelBounds, size: (usize, usize)) -> (r: Result<
    ReadPlan,
    ReadError,
>)
    ensures
        r == match plan_of(raster, bounds, size) {
            Some(plan) => Ok::<ReadPlan, ReadError>(plan),
            None => Err(ReadError::DegenerateWindow),
        },
        r matches Ok(plan) ==> plan.wf() && plan.window.x + plan.window.width <= raster.0
            && plan.window.y + plan.window.height <= raster.1,
{
    let x = match resolve_axis(bounds.min_x, bounds.max_x, raster.0, size.0) {
        Some(axis) => axis,
        None => { return Err(ReadError::DegenerateWindow); },
    };
    let y = match resolve_axis(bounds.min_y, bounds.max_y, raster.1, size.1) {
        Some(axis) => axis,
        None => { return Err(ReadError::DegenerateWindow); },
    };
    Ok(
        ReadPlan {
            window: PixelWindow {
                x: x.origin,
                y: y.origin,
                width: x.extent,
                height: y.extent,
                clamped_left: x.clamped_low,
                clamped_top: y.clamped_low,
                clamped_right: x.clamped_high,
                clamped_bottom: y.clamped_high,
            },
            read_width: x.read,
            read_height: y.read,
            off_x: x.offset,
            off_y: y.offset,
            out_width: size.0,
            out_height: size.1,
        },
    )
}

/// On each axis the window lies within the raster, and what is read fits in
/// the output at its offset.
proof fn lemma_axis_fits(low: int, high: int, raster: int, out: int)
    requires
        0 <= raster,
        0 <= out,
        high != low,
    ensures
        0 <= clamp_origin(low, raster),
        0 <= clamp_extent(low, high, raster),
        clamp_origin(low, raster) + clamp_extent(low, high, raster) <= raster,
        0 <= read_extent(low, high, raster, out) <= out,
        0 <= place_offset(low, high, raster, out),
        place_offset(low, high, raster, out) + read_extent(low, high, raster, out) <= out,
{
    lemma_read_extent_is_bounded(low, high, raster, out);
    if clamp_origin(low, raster) != low && low <= 0 && high >= raster {
        lemma_enclosing_fits(out, raster, -low, high - low);
    }
}

/// Whatever the box, the window that is read lies within the raster, and
/// what is read fits in the output at its offset.
pub proof fn lemma_plan_fits(raster: (usize, usize), bounds: PixelBounds, size: (usize, usize))
    ensures
        plan_of(raster, bounds, size) matches Some(plan) ==> {
            &&& plan.wf()
            &&& plan.window.x + plan.window.width <= raster.0
            &&& plan.window.y + plan.window.height <= raster.1
            &&& plan.out_width == size.0
            &&& plan.out_height == size.1
        },
{
    if plan_of(raster, bounds, size) is Some {
        lemma_axis_fits(bounds.min_x as int, bounds.max_x as int, raster.0 as int, size.0 as int);
        lemma_axis_fits(bounds.min_y as int, bounds.max_y as int, raster.1 as int, size.1 as int);
    }
}

/// A box that lies within the raster is read at the full output size and
/// placed at the output's origin, and its window is the box itself.
pub proof fn lemma_contained_window(raster: (usize, usize), bounds: PixelBounds, size: (usize, usize))
    requires
        0 <= bounds.min_x < bounds.max_x <= raster.0,
        0 <= bounds.min_y < bounds.max_y <= raster.1,
    ensures
        plan_of(raster, bounds, size) matches Some(plan) && {
            &&& plan.off_x == 0
            &&& plan.off_y == 0
            &&& plan.read_width == size.0
            &&& plan.read_height == size.1
            &&& plan.window.x == bounds.min_x
            &&& plan.window.y == bounds.min_y
            &&& plan.window.width == bounds.max_x - bounds.min_x
            &&& plan.window.height == bounds.max_y - bounds.min_y
            &&& !plan.window.clamped_left && !plan.window.clamped_right
            &&& !plan.window.clamped_top && !plan.window.clamped_bottom
        },
{
    lemma_whole_share(size.0 as int, bounds.max_x - bounds.min_x);
    lemma_whole_share(size.1 as int, bounds.max_y - bounds.min_y);
}

/// A box that starts before the raster and ends before the raster's end has
/// its samples against the high edge of the output: the offset is the output
/// size less the size read. This holds on each axis.
pub proof fn lemma_low_edge_window(raster: (usize, usize), bounds: PixelBounds, size: (usize, usize))
    requires
        bounds.max_x != bounds.min_x,
        bounds.max_y != bounds.min_y,
    ensures
        plan_of(raster, bounds, size) matches Some(plan) && {
            &&& plan.read_width <= size.0
            &&& plan.read_height <= size.1
            &&& bounds.min_x < 0 && bounds.max_x < raster.0 ==> plan.off_x == size.0
                - plan.read_width
            &&& bounds.min_y < 0 && bounds.max_y < raster.1 ==> plan.off_y == size.1
                - plan.read_height
        },
{
    lemma_read_extent_is_bounded(
        bounds.min_x as int,
        bounds.max_x as int,
        raster.0 as int,
        size.0 as int,
    );
    lemma_read_extent_is_bounded(
        bounds.min_y as int,
        bounds.max_y as int,
        raster.1 as int,
        size.1 as int,
    );
}

} // verus!
