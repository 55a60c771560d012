//! A whole tile as a function of the samples fetched for it.
//!
//! A [`Compositor`](crate::composite::Compositor) takes the samples one
//! read at a time. Here the outcome of all its reads is stated at once:
//! each sample of the finished tile in terms of the background and of the
//! fetched samples that belong to it.

use crate::background::Background;
use crate::composite::{initial_state, lemma_begins_in_order, CompositorState, ReadRequest};
use crate::pixels::{
    background_sample, blend, channel_count, premultiplied, sample_index,
};
use crate::window::ReadPlan;
use vstd::prelude::*;

verus! {

/// The samples fetched for a tile.
pub struct Fetched {
    /// The alpha band; `None` where the output has three samples a pixel.
    pub alpha: Option<Seq<u8>>,
    /// The validity mask of each channel's band, by channel.
    pub masks: Seq<Seq<u8>>,
    /// Each channel's band, by channel.
    pub bands: Seq<Seq<u8>>,
}

impl Fetched {
    /// Whether these are the samples of a tile of `channels` samples a
    /// pixel whose bands are fetched at `count` samples each.
    pub open spec fn fits(&self, channels: int, count: int) -> bool {
        &&& self.alpha is Some <==> channels == 4
        &&& self.alpha matches Some(alpha) ==> alpha.len() == count
        &&& self.masks.len() == channels
        &&& self.bands.len() == channels
        &&& forall|k: int| 0 <= k < channels ==> (#[trigger] self.masks[k]).len() == count
        &&& forall|k: int| 0 <= k < channels ==> (#[trigger] self.bands[k]).len() == count
    }

    /// The mask and the band of each channel in turn.
    pub open spec fn layers(&self) -> Seq<Seq<u8>> {
        Seq::new(
            2 * self.masks.len(),
            |i: int|
                if i % 2 == 0 {
                    self.masks[i / 2]
                } else {
                    self.bands[i / 2]
                },
        )
    }

    /// The samples in the order in which a compositor takes them: the alpha
    /// band where there is one, then the mask and the band of each channel
    /// in turn.
    pub open spec fn reads(&self) -> Seq<Seq<u8>> {
        match self.alpha {
            Some(alpha) => seq![alpha] + self.layers(),
            None => self.layers(),
        }
    }
}

/// The band that read `n` of a tile asks for, counted from one, and whether
/// it asks for the band's mask.
pub open spec fn asked(channels: int, n: int) -> (int, bool) {
    if channels == 4 {
        if n == 0 {
            (4, false)
        } else {
            ((n - 1) / 2 + 1, (n - 1) % 2 == 0)
        }
    } else {
        (n / 2 + 1, n % 2 == 0)
    }
}

/// Read `n` of the tile that begins in state `first`.
pub open spec fn read_at(first: CompositorState, n: int) -> ReadRequest {
    first.request(asked(first.channels, n).0, asked(first.channels, n).1)
}

/// Sample `index` of the output once every band is blended: the fetched
/// sample of its channel where one belongs to it and its mask is not zero,
/// blended over the background where there is an alpha band; the
/// background's sample everywhere else.
pub open spec fn composited_sample(
    plan: ReadPlan,
    background: Background,
    channels: int,
    fetched: Fetched,
    index: int,
) -> u8 {
    let channel = index % channels;
    let under = background_sample(background, channel);
    match sample_index(plan, channels, index) {
        Some(j) => if fetched.masks[channel][j] != 0 {
            match fetched.alpha {
                Some(alpha) => blend(fetched.bands[channel][j], alpha[j], under),
                None => fetched.bands[channel][j],
            }
        } else {
            under
        },
        None => under,
    }
}

/// Sample `index` of the finished tile: the composited sample; where a
/// pixel has four samples, its colour samples scaled by its alpha sample.
pub open spec fn tile_sample(
    plan: ReadPlan,
    background: Background,
    channels: int,
    fetched: Fetched,
    index: int,
) -> u8 {
    let composited = composited_sample(plan, background, channels, fetched, index);
    if channels == 4 && index % 4 != 3 {
        premultiplied(
            composited,
            composited_sample(plan, background, channels, fetched, index - index % 4 + 3),
        )
    } else {
        composited
    }
}

/// The finished tile.
pub open spec fn tile(plan: ReadPlan, background: Background, channels: int, fetched: Fetched) -> Seq<
    u8,
> {
    Seq::new(
        (plan.out_width * plan.out_height * channels) as nat,
        |i: int| tile_sample(plan, background, channels, fetched, i),
    )
}

/// The state after the first `count` of `reads` were supplied in order.
pub open spec fn run(state: CompositorState, reads: Seq<Seq<u8>>, count: nat) -> CompositorState
    decreases count,
{
    if count == 0 {
        state
    } else {
        run(state, reads, (count - 1) as nat).supplied(reads[count - 1])
    }
}

/// Whether `state` is that of a tile with the alpha band supplied where
/// there is one and the first `done` channels blended.
spec fn settled(
    state: CompositorState,
    plan: ReadPlan,
    background: Background,
    channels: int,
    fetched: Fetched,
    done: int,
) -> bool {
    &&& state.wf()
    &&& state.plan == plan
    &&& state.background == background
    &&& state.channels == channels
    &&& state.alpha == fetched.alpha
    &&& state.mask is None
    &&& state.blended == done
    &&& forall|i: int|
        0 <= i < state.pixels.len() ==> #[trigger] state.pixels[i] == if i % channels < done {
            composited_sample(plan, background, channels, fetched, i)
        } else {
            background_sample(background, i % channels)
        }
}

/// The number of reads before the first mask: one where there is an alpha
/// band.
spec fn lead(channels: int) -> nat {
    if channels == 4 {
        1
    } else {
        0
    }
}

/// Where the reads of each channel stand among the reads.
proof fn lemma_reads_in_order(fetched: Fetched, channels: int, count: int, k: int)
    requires
        channels == 3 || channels == 4,
        fetched.fits(channels, count),
        0 <= k < channels,
    ensures
        fetched.reads().len() == lead(channels) + 2 * channels,
        fetched.reads()[lead(channels) + 2 * k] == fetched.masks[k],
        fetched.reads()[lead(channels) + 2 * k + 1] == fetched.bands[k],
        channels == 4 ==> fetched.reads()[0] == fetched.alpha->0,
{
    let layers = fetched.layers();
    assert(layers[2 * k] == fetched.masks[k]);
    assert(layers[2 * k + 1] == fetched.bands[k]);
}

/// A tile begins in order: the state before any band is blended.
proof fn lemma_begins_settled(bands: int, plan: ReadPlan, background: Background, fetched: Fetched)
    requires
        bands == 3 || bands == 4,
        plan.wf(),
        fetched.fits(channel_count(bands, background), plan.samples()),
    ensures
        ({
            let channels = channel_count(bands, background);
            let first = initial_state(bands, plan, background);
            &&& first.wf()
            &&& first.pending() == Some(read_at(first, 0))
            &&& settled(
                run(first, fetched.reads(), lead(channels)),
                plan,
                background,
                channels,
                fetched,
                0,
            )
        }),
{
    let channels = channel_count(bands, background);
    let first = initial_state(bands, plan, background);
    let reads = fetched.reads();
    lemma_reads_in_order(fetched, channels, plan.samples(), 0);
    lemma_begins_in_order(bands, plan, background);
    assert(run(first, reads, 0) == first);
    if channels == 4 {
        assert(run(first, reads, 1) == first.supplied(reads[0]));
    }
}

/// A band is blended onto the background: the state after the mask and the
/// band of the next channel were supplied.
proof fn lemma_band_settles(
    state: CompositorState,
    plan: ReadPlan,
    background: Background,
    channels: int,
    fetched: Fetched,
    done: int,
)
    requires
        settled(state, plan, background, channels, fetched, done),
        fetched.fits(channels, plan.samples()),
        0 <= done < channels,
    ensures
        state.pending() == Some(state.request(done + 1, true)),
        state.supplied(fetched.masks[done]).wf(),
        state.supplied(fetched.masks[done]).pending() == Some(state.request(done + 1, false)),
        settled(
            state.supplied(fetched.masks[done]).supplied(fetched.bands[done]),
            plan,
            background,
            channels,
            fetched,
            done + 1,
        ),
{
    let masked = state.supplied(fetched.masks[done]);
    let blended = masked.supplied(fetched.bands[done]);
    state.lemma_supply_keeps_order(fetched.masks[done]);
    assert forall|i: int| 0 <= i < blended.pixels.len() implies #[trigger] blended.pixels[i] == if i
        % channels < done + 1 {
        composited_sample(plan, background, channels, fetched, i)
    } else {
        background_sample(background, i % channels)
    } by {
        assert(state.pixels[i] == if i % channels < done {
            composited_sample(plan, background, channels, fetched, i)
        } else {
            background_sample(background, i % channels)
        });
    }
    masked.lemma_supply_keeps_order(fetched.bands[done]);
}

/// The reads of a tile, one after the other: what is asked for at each, and
/// the state once the first `done` channels are blended.
proof fn lemma_runs_settled(
    bands: int,
    plan: ReadPlan,
    background: Background,
    fetched: Fetched,
    done: int,
)
    requires
        bands == 3 || bands == 4,
        plan.wf(),
        fetched.fits(channel_count(bands, background), plan.samples()),
        0 <= done <= channel_count(bands, background),
    ensures
        ({
            let channels = channel_count(bands, background);
            let first = initial_state(bands, plan, background);
            let reads = fetched.reads();
            &&& settled(
                run(first, reads, (lead(channels) + 2 * done) as nat),
                plan,
                background,
                channels,
                fetched,
                done,
            )
            &&& forall|n: nat|
                n < lead(channels) + 2 * done ==> (#[trigger] run(first, reads, n)).wf() && run(
                    first,
                    reads,
                    n,
                ).pending() == Some(read_at(first, n as int))
        }),
    decreases done,
{
    let channels = channel_count(bands, background);
    let first = initial_state(bands, plan, background);
    let reads = fetched.reads();
    lemma_begins_settled(bands, plan, background, fetched);
    if done == 0 {
        assert(run(first, reads, 0) == first);
    } else {
        let k = done - 1;
        lemma_runs_settled(bands, plan, background, fetched, k);
        lemma_reads_in_order(fetched, channels, plan.samples(), k);
        let at: nat = (lead(channels) + 2 * k) as nat;
        let before = run(first, reads, at);
        lemma_band_settles(before, plan, background, channels, fetched, k);
        assert(run(first, reads, at + 1) == before.supplied(reads[at as int]));
        assert(run(first, reads, at + 2) == run(first, reads, at + 1).supplied(
            reads[at as int + 1],
        ));
        assert forall|n: nat| n < lead(channels) + 2 * done implies (#[trigger] run(
            first,
            reads,
            n,
        )).wf() && run(first, reads, n).pending() == Some(read_at(first, n as int)) by {
            if n == at {
                assert(asked(channels, n as int) == (k + 1, true));
            } else if n == at + 1 {
                assert(asked(channels, n as int) == (k + 1, false));
            }
        }
    }
}

/// The samples fetched for a tile, supplied in order, finish as the tile.
///
/// Every read but the last leaves a read pending, and each read is the one
/// that [`asked`] names; the last leaves none. The finished state is the
/// tile of the fetched samples: every sample is the one that
/// [`tile_sample`] gives.
pub proof fn lemma_finished_tile(bands: int, plan: ReadPlan, background: Background, fetched: Fetched)
    requires
        bands == 3 || bands == 4,
        plan.wf(),
        fetched.fits(channel_count(bands, background), plan.samples()),
    ensures
        ({
            let channels = channel_count(bands, background);
            let first = initial_state(bands, plan, background);
            let reads = fetched.reads();
            let last = run(first, reads, reads.len());
            &&& reads.len() == if channels == 4 {
                9int
            } else {
                6int
            }
            &&& forall|n: nat|
                n < reads.len() ==> (#[trigger] run(first, reads, n)).wf() && run(
                    first,
                    reads,
                    n,
                ).pending() == Some(read_at(first, n as int))
            &&& forall|n: nat|
                n < reads.len() ==> (#[trigger] reads[n as int]).len() == plan.samples()
            &&& last.wf()
            &&& last.pending() is None
            &&& last.finished() == tile(plan, background, channels, fetched)
        }),
{
    let channels = channel_count(bands, background);
    let first = initial_state(bands, plan, background);
    let reads = fetched.reads();
    lemma_reads_in_order(fetched, channels, plan.samples(), 0);
    lemma_runs_settled(bands, plan, background, fetched, channels);
    let last = run(first, reads, reads.len());
    assert forall|n: nat| n < reads.len() implies (#[trigger] reads[n as int]).len()
        == plan.samples() by {
        let m = n - lead(channels);
        if m >= 0 {
            lemma_reads_in_order(fetched, channels, plan.samples(), m / 2);
        }
    }
    assert(last.finished() =~= tile(plan, background, channels, fetched)) by {
        assert forall|i: int| 0 <= i < last.pixels.len() implies #[trigger] last.finished()[i]
            == tile_sample(plan, background, channels, fetched, i) by {
            assert(last.pixels[i] == composited_sample(plan, background, channels, fetched, i));
            if channels == 4 && i % 4 != 3 {
                let a = i - i % 4 + 3;
                assert(0 <= a < last.pixels.len());
                assert(last.pixels[a] == composited_sample(
                    plan,
                    background,
                    channels,
                    fetched,
                    a,
                ));
            }
        }
    }
}

} // verus!
