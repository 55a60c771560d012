//! Compositing a tile from the bands of a raster.
//!
//! The raster itself is read by the caller. A [`Compositor`] says which band
//! or mask to fetch next, takes the samples that were fetched, and blends
//! them over the background. The order is: the alpha band where the output
//! has four samples a pixel; then, for each output channel in turn, the
//! validity mask of its band and the band itself.

use crate::background::Background;
use crate::error::ReadError;
use crate::pixels::{
    background_pixels, background_sample, blend, blend_band, blended_band, channel_count,
    fill_background, lemma_index_fits, lemma_index_splits, output_channels, premultiplied_pixels,
    premultiply, sample_index,
};
use crate::window::{plan_of, resolve_window, PixelBounds, PixelWindow, ReadPlan};
use vstd::prelude::*;

verus! {

/// How a window is resampled to the size at which it is read.
#[derive(Clone, Copy, Debug, PartialEq, Eq, Structural)]
pub enum Resampling {
    /// Each sample is the nearest pixel of the window, so that neither masks
    /// nor alpha take values between valid and invalid at the edge of the
    /// raster's coverage.
    NearestNeighbour,
}

/// One read from the raster.
#[derive(Clone, Copy, Debug, PartialEq, Eq, Structural)]
pub struct ReadRequest {
    /// The band to read, counted from one.
    pub band: usize,
    /// Whether to read the band's validity mask in place of its samples.
    pub mask: bool,
    /// The region of the raster to read.
    pub window: PixelWindow,
    /// The size to which the region is resampled.
    pub width: usize,
    pub height: usize,
    pub resampling: Resampling,
}

/// What a [`Compositor`] holds.
pub struct CompositorState {
    pub plan: ReadPlan,
    pub background: Background,
    /// Samples per output pixel.
    pub channels: int,
    /// The output as composited so far.
    pub pixels: Seq<u8>,
    /// The alpha band, once fetched.
    pub alpha: Option<Seq<u8>>,
    /// The mask of the band that is blended next, once fetched.
    pub mask: Option<Seq<u8>>,
    /// Number of bands blended so far.
    pub blended: int,
}

impl CompositorState {
    /// What holds of every state: the buffers have the sizes of the plan,
    /// the stages come in order, and every sample that no band was blended
    /// into yet is the background's.
    pub open spec fn wf(&self) -> bool {
        &&& self.plan.wf()
        &&& self.channels == 3 || self.channels == 4
        &&& self.channels == 4 ==> self.background is Alpha
        &&& 0 <= self.blended <= self.channels
        &&& self.pixels.len() == self.plan.out_width * self.plan.out_height * self.channels
        &&& self.alpha matches Some(samples) ==> samples.len() == self.plan.samples()
            && self.channels == 4
        &&& self.mask matches Some(samples) ==> samples.len() == self.plan.samples()
            && self.blended < self.channels
        &&& self.channels == 4 && self.alpha is None ==> self.mask is None && self.blended == 0
        &&& forall|i: int|
            0 <= i < self.pixels.len() && (sample_index(self.plan, self.channels, i) is None || i
                % self.channels >= self.blended) ==> #[trigger] self.pixels[i]
                == background_sample(self.background, i % self.channels)
    }

    /// The read with which the raster is asked for `band`, or for its mask.
    pub open spec fn request(&self, band: int, mask: bool) -> ReadRequest {
        ReadRequest {
            band: band as usize,
            mask,
            window: self.plan.window,
            width: self.plan.read_width,
            height: self.plan.read_height,
            resampling: Resampling::NearestNeighbour,
        }
    }

    /// The read whose samples are supplied next; `None` once every band has
    /// been blended.
    pub open spec fn pending(&self) -> Option<ReadRequest> {
        if self.channels == 4 && self.alpha is None {
            Some(self.request(4, false))
        } else if self.blended < self.channels {
            Some(self.request(self.blended + 1, self.mask is None))
        } else {
            None
        }
    }

    /// The state after the samples of the pending read were supplied.
    pub open spec fn supplied(&self, samples: Seq<u8>) -> CompositorState {
        if self.channels == 4 && self.alpha is None {
            CompositorState { alpha: Some(samples), ..*self }
        } else if self.mask is None {
            CompositorState { mask: Some(samples), ..*self }
        } else {
            CompositorState {
                pixels: blended_band(
                    self.pixels,
                    self.plan,
                    self.channels,
                    self.blended,
                    self.mask->0,
                    samples,
                    self.alpha,
                ),
                mask: None,
                blended: self.blended + 1,
                ..*self
            }
        }
    }

    /// The number of reads whose samples are still to be supplied: the
    /// alpha band where it is due, and a mask and a band for each channel
    /// that is not blended yet.
    pub open spec fn reads_left(&self) -> int {
        let for_alpha = if self.channels == 4 && self.alpha is None {
            1int
        } else {
            0int
        };
        let for_mask = if self.mask is Some {
            0int
        } else {
            1int
        };
        if self.blended < self.channels {
            for_alpha + 2 * (self.channels - self.blended - 1) + for_mask + 1
        } else {
            for_alpha
        }
    }

    /// The finished tile: the composited samples, with the colour samples
    /// scaled by alpha where a pixel has four samples.
    pub open spec fn finished(&self) -> Seq<u8> {
        if self.channels == 4 {
            premultiplied_pixels(self.pixels)
        } else {
            self.pixels
        }
    }

    /// The shape of a tile: three or four samples a pixel, four only over a
    /// transparent background, and a buffer of one sample for each channel
    /// of each pixel of the output, before and after it is finished.
    pub proof fn lemma_shape(self)
        requires
            self.wf(),
        ensures
            self.plan.wf(),
            self.channels == 3 || self.channels == 4,
            self.channels == 4 ==> self.background is Alpha,
            0 <= self.blended <= self.channels,
            self.pixels.len() == self.plan.out_width * self.plan.out_height * self.channels,
            self.finished().len() == self.pixels.len(),
            self.alpha matches Some(samples) ==> samples.len() == self.plan.samples(),
            self.mask matches Some(samples) ==> samples.len() == self.plan.samples(),
    {
    }

    /// Supplying the samples of the pending read keeps a state in order.
    pub proof fn lemma_supply_keeps_order(self, samples: Seq<u8>)
        requires
            self.wf(),
            self.pending() is Some,
            samples.len() == self.plan.samples(),
        ensures
            self.supplied(samples).wf(),
    {
    }

    /// A tile takes one read for the alpha band where the output has one,
    /// and two for each channel. Each supply is one read less, and there is
    /// a pending read as long as any is left.
    pub proof fn lemma_reads_run_out(self, samples: Seq<u8>)
        requires
            self.wf(),
        ensures
            0 <= self.reads_left() <= 2 * self.channels + 1,
            self.pending() is None <==> self.reads_left() == 0,
            self.pending() is Some ==> self.supplied(samples).reads_left() == self.reads_left()
                - 1,
            self.blended == 0 && self.alpha is None && self.mask is None ==> self.reads_left()
                == if self.channels == 4 {
                9int
            } else {
                6int
            },
    {
    }

    /// A sample that nothing fetched covers is the background's at every
    /// stage, and in the finished tile.
    pub proof fn lemma_uncovered_is_background(self, index: int)
        requires
            self.wf(),
            0 <= index < self.pixels.len(),
            sample_index(self.plan, self.channels, index) is None,
        ensures
            self.pixels[index] == background_sample(self.background, index % self.channels),
            self.finished()[index] == background_sample(
                self.background,
                index % self.channels,
            ),
    {
        if self.channels == 4 {
            // A transparent background is zero, and zero scaled is zero.
            assert(self.pixels[index] == 0);
        }
    }

    /// Every sample in a column before the plan's offset, and in a row
    /// before it, is the background's at every stage, and in the finished
    /// tile.
    pub proof fn lemma_before_offset_is_background(self, row: int, col: int, channel: int)
        requires
            self.wf(),
            0 <= row < self.plan.out_height,
            0 <= col < self.plan.out_width,
            0 <= channel < self.channels,
            col < self.plan.off_x || row < self.plan.off_y,
        ensures
            ({
                let index = (row * self.plan.out_width + col) * self.channels + channel;
                &&& 0 <= index < self.pixels.len()
                &&& self.pixels[index] == background_sample(self.background, channel)
                &&& self.finished()[index] == background_sample(self.background, channel)
            }),
    {
        let width = self.plan.out_width as int;
        let index = (row * width + col) * self.channels + channel;
        lemma_index_fits(width, self.plan.out_height as int, self.channels, row, col, channel);
        lemma_index_splits(width, self.channels, row, col, channel);
        self.lemma_uncovered_is_background(index);
    }

    /// A band lands on the background: once the samples of the pending
    /// band are supplied, each sample of its channel is the fetched sample
    /// where that is covered and its mask is not zero (blended over the
    /// background where there is an alpha band), and the background's
    /// everywhere else.
    pub proof fn lemma_band_lands_on_background(self, samples: Seq<u8>, index: int)
        requires
            self.wf(),
            self.pending() is Some,
            !self.pending()->0.mask,
            self.alpha is Some || self.channels == 3,
            0 <= index < self.pixels.len(),
            index % self.channels == self.blended,
        ensures
            self.supplied(samples).pixels[index] == ({
                let under = background_sample(self.background, self.blended);
                match sample_index(self.plan, self.channels, index) {
                    Some(j) => if self.mask->0[j] != 0 {
                        match self.alpha {
                            Some(alpha) => blend(samples[j], alpha[j], under),
                            None => samples[j],
                        }
                    } else {
                        under
                    },
                    None => under,
                }
            }),
    {
    }
}

/// Composites one tile from the samples that its caller fetches.
pub struct Compositor {
    plan: ReadPlan,
    background: Background,
    channels: usize,
    pixels: Vec<u8>,
    alpha: Option<Vec<u8>>,
    mask: Option<Vec<u8>>,
    blended: usize,
}

impl View for Compositor {
    type V = CompositorState;

    closed spec fn view(&self) -> CompositorState {
        CompositorState {
            plan: self.plan,
            background: self.background,
            channels: self.channels as int,
            pixels: self.pixels@,
            alpha: match self.alpha {
                Some(samples) => Some(samples@),
                None => None,
            },
            mask: match self.mask {
                Some(samples) => Some(samples@),
                None => None,
            },
            blended: self.blended as int,
        }
    }
}

/// The first state of a compositor: the background, and nothing fetched.
pub open spec fn initial_state(bands: int, plan: ReadPlan, background: Background) -> CompositorState {
    CompositorState {
        plan,
        background,
        channels: channel_count(bands, background),
        pixels: background_pixels(
            background,
            channel_count(bands, background),
            plan.out_width * plan.out_height,
        ),
        alpha: None,
        mask: None,
        blended: 0,
    }
}

/// A tile begins in order, whatever its plan and its background.
pub proof fn lemma_begins_in_order(bands: int, plan: ReadPlan, background: Background)
    requires
        bands == 3 || bands == 4,
        plan.wf(),
    ensures
        initial_state(bands, plan, background).wf(),
        initial_state(bands, plan, background).reads_left() == if bands == 4
            && background is Alpha {
            9int
        } else {
            6int
        },
{
    assert(0 <= plan.out_width * plan.out_height * channel_count(bands, background))
        by (nonlinear_arith)
        requires
            0 <= plan.out_width,
            0 <= plan.out_height,
            0 <= channel_count(bands, background),
    ;
}

proof fn lemma_pixels_fit(width: int, height: int, channels: int)
    by (nonlinear_arith)
    requires
        0 <= width,
        0 <= height,
        1 <= channels <= 4,
        width * height * channels <= usize::MAX,
    ensures
        0 <= width * height <= usize::MAX,
        0 <= width * height * channels <= usize::MAX,
        channels == 4 ==> (width * height * channels) % 4 == 0,
{
}

/// Accepts a raster of three or four bands.
pub fn check_band_count(bands: usize) -> (r: Result<(), ReadError>)
    ensures
        r is Ok <==> bands == 3 || bands == 4,
        r is Err ==> r == Err::<(), ReadError>(ReadError::BandCountError),
{
    if bands == 3 || bands == 4 {
        Ok(())
    } else {
        Err(ReadError::BandCountError)
    }
}

impl Compositor {
    /// What holds of every compositor: what holds of every state.
    pub open spec fn wf(&self) -> bool {
        self@.wf()
    }

    /// Starts a tile.
    ///
    /// `bands` is the raster's number of bands, `raster` its size in pixels
    /// (width, height), `bounds` the requested box in the raster's pixel
    /// grid, `size` the output size in pixels (width, height). The band
    /// count is checked first, then the box. The output of a tile that is
    /// begun must fit in memory.
    pub fn begin(
        bands: usize,
        raster: (usize, usize),
        bounds: PixelBounds,
        size: (usize, usize),
        background: Background,
    ) -> (r: Result<Compositor, ReadError>)
        requires
            (bands == 3 || bands == 4) && plan_of(raster, bounds, size) is Some ==> size.0 * size.1
                * channel_count(bands as int, background) <= usize::MAX,
        ensures
            !(bands == 3 || bands == 4) ==> r is Err && r->Err_0 == ReadError::BandCountError,
            (bands == 3 || bands == 4) && plan_of(raster, bounds, size) is None ==> r is Err
                && r->Err_0 == ReadError::DegenerateWindow,
            (bands == 3 || bands == 4) && plan_of(raster, bounds, size) is Some ==> r is Ok
                && r->Ok_0.wf() && r->Ok_0@ == initial_state(
                bands as int,
                plan_of(raster, bounds, size)->0,
                background,
            ),
            r matches Ok(c) ==> c@.pixels.len() == size.0 * size.1 * channel_count(
                bands as int,
                background,
            ),
    {
        match check_band_count(bands) {
            Ok(()) => {},
            Err(e) => { return Err(e); },
        }
        let plan = match resolve_window(raster, bounds, size) {
            Ok(plan) => plan,
            Err(e) => { return Err(e); },
        };
        let channels = output_channels(bands, background);
        proof {
            lemma_pixels_fit(size.0 as int, size.1 as int, channels as int);
        }
        let pixels = fill_background(background, channels, size.0 * size.1);
        Ok(Compositor { plan, background, channels, pixels, alpha: None, mask: None, blended: 0 })
    }

    /// The plan of this tile.
    pub fn plan(&self) -> (r: ReadPlan)
        ensures
            r == self@.plan,
    {
        self.plan
    }

    /// Whether the output has an alpha sample in each pixel.
    pub fn has_alpha(&self) -> (r: bool)
        ensures
            r == (self@.channels == 4),
    {
        self.channels == 4
    }

    /// The read whose samples this compositor takes next; `None` once every
    /// band has been blended.
    pub fn next_read(&self) -> (r: Option<ReadRequest>)
        requires
            self.wf(),
        ensures
            r == self@.pending(),
            r matches Some(request) ==> 1 <= request.band <= 4,
    {
        let width = self.plan.read_width;
        let height = self.plan.read_height;
        let window = self.plan.window;
        let resampling = Resampling::NearestNeighbour;
        if self.channels == 4 && self.alpha.is_none() {
            Some(ReadRequest { band: 4, mask: false, window, width, height, resampling })
        } else if self.blended < self.channels {
            Some(
                ReadRequest {
                    band: self.blended + 1,
                    mask: self.mask.is_none(),
                    window,
                    width,
                    height,
                    resampling,
                },
            )
        } else {
            None
        }
    }

    /// Takes the samples of the pending read, one for each sample of the
    /// read size, row by row.
    ///
    /// The alpha band and a mask are kept; a band is blended into the output
    /// through its mask.
    pub fn supply(&mut self, samples: Vec<u8>)
        requires
            old(self).wf(),
            old(self)@.pending() is Some,
            samples.len() == old(self)@.plan.samples(),
        ensures
            final(self).wf(),
            final(self)@ == old(self)@.supplied(samples@),
    {
        if self.channels == 4 && self.alpha.is_none() {
            self.alpha = Some(samples);
            return;
        }
        match self.mask.take() {
            None => {
                self.mask = Some(samples);
            },
            Some(mask) => {
                let alpha = self.alpha.as_ref();
                blend_band(
                    &mut self.pixels,
                    &self.plan,
                    self.channels,
                    self.blended,
                    &mask,
                    &samples,
                    alpha,
                );
                self.blended = self.blended + 1;
            },
        }
    }

    /// Ends the tile: whether each pixel has an alpha sample, and the
    /// output, its colour samples scaled by alpha where it has one. What the
    /// output holds in terms of all that was fetched is stated in
    /// [`tile`](crate::tile).
    pub fn finish(self) -> (r: (bool, Vec<u8>))
        requires
            self.wf(),
            self@.pending() is None,
        ensures
            r.0 == (self@.channels == 4),
            r.1@ == self@.finished(),
            r.1.len() == self@.plan.out_width * self@.plan.out_height * self@.channels,
            forall|i: int|
                0 <= i < r.1.len() && sample_index(self@.plan, self@.channels, i) is None
                    ==> #[trigger] r.1[i] == background_sample(
                    self@.background,
                    i % self@.channels,
                ),
    {
        let mut pixels = self.pixels;
        if self.channels == 4 {
            proof {
                assert(pixels@.len() == self@.plan.out_width * self@.plan.out_height * 4);
            }
            premultiply(&mut pixels);
        }
        (self.channels == 4, pixels)
    }
}

} // verus!
