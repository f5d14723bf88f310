//! Effects: pure transforms from samples to samples.
//!
//! [`Effect`] maps a whole sample to a new sample; [`WaveformEffect`] maps
//! one mono buffer to a new sample and is lifted to whole samples by
//! [`apply_waveform_effect`], which processes every channel independently
//! and reassembles the results. [`LinearFadeEcho`] is a concrete effect that
//! layers amplitude-decaying, increasingly delayed copies of its input into
//! a composition.

use vstd::prelude::*;

use crate::codes::{sub_codes, codes_lt, mul_codes, sub_code, code_lt, CODE_ONE, CODE_ZERO};
use crate::error::Error;
use crate::sample::{Composition, MultiChannel, Sample};

verus! {

/// A pure transform from one sample to a new sample; it never mutates its
/// input, and a successful result is well-formed.
pub trait Effect {
    /// Applies the effect to `sample`, producing a new sample or a failure.
    fn apply(&self, sample: &Sample) -> (r: Result<Sample, Error>)
        requires
            sample.wf(),
        ensures
            r matches Ok(out) ==> out.wf(),
    ;
}

/// A pure transform from one mono buffer to a new sample; a successful
/// result is well-formed. Used through the lifting rule
/// [`apply_waveform_effect`].
pub trait WaveformEffect {
    /// Processes one channel's raw buffer of amplitude codes.
    fn process(&self, waveform: &Vec<u32>) -> (r: Result<Sample, Error>)
        ensures
            r matches Ok(out) ==> out.wf(),
    ;
}

/// The lifting rule: a mono-buffer transform becomes a whole-sample
/// transform by processing every channel independently and appending each
/// result as the next channel of a fresh multi-channel sample.
///
/// Fails when any per-channel processing fails, or when a processed result
/// cannot be appended (it is not mono, or disagrees in rate or length with
/// an earlier result). On success the output has one channel per input
/// channel.
pub fn apply_waveform_effect<W: WaveformEffect>(effect: &W, sample: &Sample) -> (r: Result<
    Sample,
    Error,
>)
    requires
        sample.wf(),
    ensures
        r matches Ok(out) ==> out.wf() && out.spec_channels() == sample.spec_channels(),
        sample.spec_channels() == 0 ==> r is Ok,
{
    let mut channels = MultiChannel::new();
    let n = sample.channels();
    let mut ch: u16 = 0;
    while ch < n
        invariant
            ch <= n,
            channels.wf(),
            channels.channels@.len() == ch as int,
        decreases n - ch,
    {
        let w = match sample.waveform(ch) {
            Some(w) => w,
            None => {
                return Result::Err(Error::InvalidChannel);
            },
        };
        let processed = match effect.process(&w) {
            Result::Ok(s) => s,
            Result::Err(e) => {
                return Result::Err(e);
            },
        };
        match channels.add_channel(&processed) {
            Result::Ok(u) => u,
            Result::Err(e) => {
                return Result::Err(e);
            },
        };
        ch = ch + 1;
    }
    Result::Ok(Sample::Multi(channels))
}

/// The bound on the number of echo copies a fade schedule may yield.
pub const ECHO_FUEL: usize = 0xFFFF_FFFF;

/// The gain of the `k`-th echo copy: one minus `k` times the fade slope,
/// evaluated by repeated binary32 subtraction exactly as the schedule loop
/// computes it (`fade_at(s, 0)` is the code of 1.0).
pub open spec fn fade_at(slope: u32, k: nat) -> u32
    decreases k,
{
    if k == 0 {
        CODE_ONE
    } else {
        sub_codes(fade_at(slope, (k - 1) as nat), slope)
    }
}

/// The number of consecutive positive gains `fade_at(slope, k)`,
/// `fade_at(slope, k+1)`, ..., counted up to `fuel` entries.
pub open spec fn fades_from(slope: u32, k: nat, fuel: nat) -> nat
    decreases fuel,
{
    if fuel == 0 {
        0
    } else if codes_lt(CODE_ZERO, fade_at(slope, k)) {
        1 + fades_from(slope, (k + 1) as nat, (fuel - 1) as nat)
    } else {
        0
    }
}

/// The number of echo copies produced for a fade slope: the gains
/// `1-s, 1-2s, ...` that stay positive, up to the iteration bound.
pub open spec fn spec_echo_count(slope: u32) -> nat {
    fades_from(slope, 1, ECHO_FUEL as nat)
}

/// The echo gain schedule for a fade slope: each gain in copy order.
fn fade_codes(slope: u32) -> (r: Vec<u32>)
    ensures
        r@.len() == spec_echo_count(slope),
        forall|i: int| 0 <= i < r@.len() ==> r@[i] == fade_at(slope, (i + 1) as nat),
{
    let mut fades: Vec<u32> = Vec::new();
    let mut fade = sub_code(CODE_ONE, slope);
    proof {
        reveal_with_fuel(fade_at, 2);
    }
    let mut k: usize = 0;
    while k < ECHO_FUEL && code_lt(CODE_ZERO, fade)
        invariant
            k <= ECHO_FUEL,
            fades@.len() == k as int,
            fade == fade_at(slope, (k + 1) as nat),
            forall|i: int| 0 <= i < k as int ==> fades@[i] == fade_at(slope, (i + 1) as nat),
            spec_echo_count(slope) == k as nat + fades_from(
                slope,
                (k + 1) as nat,
                (ECHO_FUEL - k) as nat,
            ),
        decreases ECHO_FUEL - k,
    {
        fades.push(fade);
        fade = sub_code(fade, slope);
        k = k + 1;
    }
    proof {
        if k < ECHO_FUEL {
            assert(fades_from(slope, (k + 1) as nat, (ECHO_FUEL - k) as nat) == 0);
        }
    }
    fades
}

/// An echo whose copies are spaced `delay` samples apart and whose gain
/// drops by `fade_slope` (an amplitude code) per copy.
pub struct LinearFadeEcho {
    /// Sample-index spacing between consecutive echo copies.
    pub delay: usize,
    /// Gain decrement per copy, as an amplitude code.
    pub fade_slope: u32,
}

impl LinearFadeEcho {
    /// An echo effect with the given delay and fade slope.
    pub fn new(delay: usize, fade_slope: u32) -> (r: LinearFadeEcho)
        ensures
            r.delay == delay,
            r.fade_slope == fade_slope,
    {
        LinearFadeEcho { delay, fade_slope }
    }

    /// The echo train: for each of the `k = spec_echo_count(fade_slope)`
    /// positive gains, a copy of `sample` scaled by that gain is scheduled
    /// at offset `delay`, `2*delay`, ..., `k*delay` in a fresh composition,
    /// so the result's length is `k*delay` plus the sample's length. The
    /// `i`-th registered track carries every channel of the input scaled by
    /// the `i`-th gain, and its single offset is `i*delay`.
    ///
    /// Fails exactly when those offsets run past the largest index.
    pub fn echo(&self, sample: &Sample) -> (r: Result<Composition, Error>)
        requires
            sample.wf(),
        ensures
            ({
                let k = spec_echo_count(self.fade_slope) as int;
                let elen = if sample.spec_channels() > 0 {
                    sample.spec_len()
                } else {
                    0int
                };
                &&& (r is Err <==> k > 0 && self.delay as int * k + elen > usize::MAX)
                &&& (r is Err ==> r->Err_0 == Error::ShapeMismatch)
                &&& (r matches Ok(c) ==> {
                    &&& c.wf()
                    &&& (k == 0 ==> c.tracks@.len() == 0 && c.length == 0)
                    &&& (k > 0 ==> {
                        &&& c.tracks@.len() == k
                        &&& c.length as int == self.delay as int * k + elen
                        &&& c.channels as int == sample.spec_channels()
                        &&& c.sample_rate == (if sample.spec_channels() > 0 {
                            sample.spec_rate()
                        } else {
                            0u32
                        })
                    })
                    &&& (forall|i: int| 0 <= i < k ==> (#[trigger] c.spec_startss()[i])
                        == seq![(self.delay as int * (i + 1)) as usize])
                    &&& (forall|i: int, ch: int| 0 <= i < k && 0 <= ch < sample.spec_channels()
                        ==> (#[trigger] c.tracks@[i].spec_waveform(ch)) == Seq::new(
                            sample.spec_len() as nat,
                            |t: int| mul_codes(
                                fade_at(self.fade_slope, (i + 1) as nat),
                                sample.spec_waveform(ch)[t],
                            ),
                        ))
                })
            }),
    {
        let ghost elen: int = if sample.spec_channels() > 0 {
            sample.spec_len()
        } else {
            0int
        };
        let fades = fade_codes(self.fade_slope);
        let mut comp = Composition::new();
        let ghost k: int = fades@.len() as int;
        let mut offset: usize = self.delay;
        let mut i: usize = 0;
        while i < fades.len()
            invariant
                i <= k,
                i < k ==> offset as int == self.delay as int * (i + 1),
                comp.wf(),
                comp.tracks@.len() == i as int,
                i == 0 ==> comp.length == 0,
                i > 0 ==> comp.length as int == self.delay as int * i + elen,
                i > 0 ==> comp.channels as int == sample.spec_channels(),
                i > 0 ==> comp.sample_rate == (if sample.spec_channels() > 0 {
                    sample.spec_rate()
                } else {
                    0u32
                }),
                forall|j: int| 0 <= j < i as int ==> (#[trigger] comp.spec_startss()[j])
                    == seq![(self.delay as int * (j + 1)) as usize],
                forall|j: int, ch: int| 0 <= j < i as int && 0 <= ch < sample.spec_channels()
                    ==> (#[trigger] comp.tracks@[j].spec_waveform(ch)) == Seq::new(
                        sample.spec_len() as nat,
                        |t: int| mul_codes(
                            fade_at(self.fade_slope, (j + 1) as nat),
                            sample.spec_waveform(ch)[t],
                        ),
                    ),
            decreases k - i,
        {
            let scaled = sample.scale(fades[i]);
            proof {
                assert(scaled.spec_len() == elen);
            }
            let len = scaled.length();
            if len > usize::MAX - offset {
                proof {
                    assert(self.delay as int * (i + 1) <= self.delay as int * k) by (nonlinear_arith)
                        requires
                            0 <= i,
                            i + 1 <= k,
                            self.delay >= 0,
                    ;
                }
                return Result::Err(Error::ShapeMismatch);
            }
            let added = comp.add_track(&scaled, offset);
            proof {
                assert(added is Ok);
                assert(self.delay as int * (i as int + 1) == self.delay as int * (i as int)
                    + self.delay as int) by (nonlinear_arith);
                assert(comp.spec_startss()[i as int] == seq![offset]);
                assert(offset == (self.delay as int * (i as int + 1)) as usize);
                assert forall|ch: int| 0 <= ch < sample.spec_channels()
                    implies (#[trigger] comp.tracks@[i as int].spec_waveform(ch)) == Seq::new(
                        sample.spec_len() as nat,
                        |t: int| mul_codes(
                            fade_at(self.fade_slope, (i as int + 1) as nat),
                            sample.spec_waveform(ch)[t],
                        ),
                    ) by {
                    assert(comp.tracks@[i as int].spec_waveform(ch) == scaled.spec_waveform(ch));
                    assert(fades@[i as int] == fade_at(self.fade_slope, (i as int + 1) as nat));
                }
            }
            if i + 1 < fades.len() {
                if self.delay > usize::MAX - offset {
                    proof {
                        assert(self.delay as int * (i + 2) <= self.delay as int * k) by (nonlinear_arith)
                            requires
                                0 <= i,
                                i + 2 <= k,
                                self.delay >= 0,
                        ;
                        assert(self.delay as int * (i as int + 2) == self.delay as int * (i as int
                            + 1) + self.delay as int) by (nonlinear_arith);
                    }
                    return Result::Err(Error::ShapeMismatch);
                }
                proof {
                    assert(self.delay as int * (i as int + 2) == self.delay as int * (i as int + 1)
                        + self.delay as int) by (nonlinear_arith);
                }
                offset = offset + self.delay;
            }
            i = i + 1;
        }
        proof {
            if k > 0 && self.delay as int * k + elen > usize::MAX {
                assert(false);
            }
        }
        Result::Ok(comp)
    }
}

impl Effect for LinearFadeEcho {
    fn apply(&self, sample: &Sample) -> (r: Result<Sample, Error>) {
        match self.echo(sample) {
            Result::Ok(c) => Result::Ok(Sample::Comp(c)),
            Result::Err(e) => Result::Err(e),
        }
    }
}

} // verus!
