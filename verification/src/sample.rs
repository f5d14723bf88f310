//! The sample model: waveform sources, multi-channel assembly, and the
//! composition mixing engine.
//!
//! A sample is a time-indexed multi-channel signal of amplitude codes (bit
//! patterns of binary32 values, see [`crate::codes`]). The closed set of
//! concrete shapes is the [`Sample`] enum: a sine generator, a stored mono
//! buffer, a multi-channel assembly of mono samples, and a composition that
//! mixes scheduled tracks.

use vstd::prelude::*;
use vstd::multiset::Multiset;

use crate::codes::{
    add_codes, mul_codes, div_codes, sin_code_of, code_of_usize, sec_index,
    CODE_TWO_PI, CODE_ZERO,
    add_code, mul_code, div_code, sin_code, usize_to_code, sec_to_index,
};
use crate::error::Error;

verus! {

broadcast use vstd::std_specs::vec::group_vec_axioms;

/// The default sample rate, in samples per second, used by synthesis.
pub const RATE: u32 = 44100;

/// A stateless mono sinusoid generator: the waveform is recomputed on demand
/// and never cached.
#[derive(Debug)]
pub struct SineWave {
    /// Frequency in hertz, as an amplitude code.
    pub frequency: u32,
    /// Peak amplitude, as an amplitude code.
    pub amplitude: u32,
    /// Samples per second.
    pub sample_rate: u32,
    /// Number of time steps.
    pub length: usize,
}

/// A passive holder of one materialized mono buffer.
#[derive(Debug)]
pub struct WaveForm {
    /// Samples per second.
    pub sample_rate: u32,
    /// The owned buffer of amplitude codes.
    pub samples: Vec<u32>,
}

/// An ordered assembly of independent mono samples, one per output channel.
///
/// The first channel appended fixes the sample rate and length for the whole
/// object; while empty, both are zero.
#[derive(Debug)]
pub struct MultiChannel {
    /// Samples per second, adopted from the first channel.
    pub sample_rate: u32,
    /// Number of time steps per channel, adopted from the first channel.
    pub length: usize,
    /// The owned channels, each a mono sample, in channel order.
    pub channels: Vec<Sample>,
}

/// The mixing engine: owns tracks, each schedulable at several start
/// offsets, and sums all scheduled copies into each output channel.
#[derive(Debug)]
pub struct Composition {
    /// Samples per second, adopted from the first track.
    pub sample_rate: u32,
    /// Number of time steps of the mixed output: the largest end position of
    /// any scheduled track copy.
    pub length: usize,
    /// Channel count, adopted from the first track.
    pub channels: u16,
    /// The registered tracks, in registration order.
    pub tracks: Vec<Sample>,
    /// For each track, its scheduled start offsets, in schedule order; every
    /// registered track has at least one offset.
    pub starts: Vec<Vec<usize>>,
}

/// A sound source: one of the closed set of concrete sample shapes.
#[derive(Debug)]
pub enum Sample {
    /// A sinusoid generator.
    Sine(SineWave),
    /// A stored mono buffer.
    Wave(WaveForm),
    /// A multi-channel assembly.
    Multi(MultiChannel),
    /// A mixed composition.
    Comp(Composition),
}

/// The amplitude code of the sinusoid at time step `t`: the amplitude times
/// the sine of `2*pi*frequency*(t/rate)`, each operation in binary32.
pub open spec fn sine_code_at(frequency: u32, amplitude: u32, rate: u32, t: usize) -> u32 {
    mul_codes(
        amplitude,
        sin_code_of(
            mul_codes(
                mul_codes(CODE_TWO_PI, frequency),
                div_codes(code_of_usize(t), code_of_usize(rate as usize)),
            ),
        ),
    )
}

/// `acc` with the waveform `tw` mixed in at offset `start`: inside the
/// covered range each element becomes the binary32 sum of the old element
/// and the track element; outside it is unchanged.
pub open spec fn mix_add(acc: Seq<u32>, tw: Seq<u32>, start: int) -> Seq<u32> {
    Seq::new(
        acc.len(),
        |t: int|
            if start <= t && t < start + tw.len() {
                add_codes(acc[t], tw[t - start])
            } else {
                acc[t]
            },
    )
}

/// `acc` with the waveform `tw` mixed in at each of the first `m` offsets of
/// `starts`, in schedule order.
pub open spec fn mix_starts(acc: Seq<u32>, tw: Seq<u32>, starts: Seq<usize>, m: int) -> Seq<u32>
    decreases m,
{
    if m <= 0 {
        acc
    } else {
        mix_add(mix_starts(acc, tw, starts, m - 1), tw, starts[m - 1] as int)
    }
}

/// A silent buffer of `len` zero codes with the first `n` waveforms of
/// `waves` mixed in, each at all of its offsets, in track order.
pub open spec fn mix_waves(len: nat, waves: Seq<Seq<u32>>, startss: Seq<Seq<usize>>, n: int) -> Seq<u32>
    decreases n,
{
    if n <= 0 {
        Seq::new(len, |t: int| CODE_ZERO)
    } else {
        mix_starts(mix_waves(len, waves, startss, n - 1), waves[n - 1], startss[n - 1], startss[n - 1].len() as int)
    }
}

impl SineWave {
    /// The waveform this generator produces on its only channel.
    pub open spec fn spec_waveform(&self) -> Seq<u32> {
        Seq::new(self.length as nat, |t: int| sine_code_at(self.frequency, self.amplitude, self.sample_rate, t as usize))
    }
}

impl MultiChannel {
    /// Well-formedness: every member is a well-formed mono sample agreeing
    /// with the adopted sample rate and length; an empty assembly has both
    /// unset (zero).
    pub open spec fn wf(&self) -> bool
        decreases self,
    {
        &&& self.channels@.len() <= 0xFFFF
        &&& (forall|i: int|
            0 <= i < self.channels@.len() ==> {
                let c = #[trigger] self.channels@[i];
                &&& c.wf()
                &&& c.spec_channels() == 1
                &&& c.spec_rate() == self.sample_rate
                &&& c.spec_len() == self.length as int
            })
        &&& (self.channels@.len() == 0 ==> self.sample_rate == 0 && self.length == 0)
    }
}

impl Composition {
    /// Well-formedness: schedules parallel the tracks; every track is
    /// well-formed and agrees with the adopted rate and channel count; every
    /// track has at least one offset; the length is exactly the largest end
    /// position of any scheduled copy (zero while empty).
    pub open spec fn wf(&self) -> bool
        decreases self,
    {
        &&& self.tracks@.len() == self.starts@.len()
        &&& (forall|i: int|
            0 <= i < self.tracks@.len() ==> {
                let tr = #[trigger] self.tracks@[i];
                &&& tr.wf()
                &&& tr.spec_rate() == self.sample_rate
                &&& tr.spec_channels() == self.channels as int
            })
        &&& (forall|i: int| 0 <= i < self.starts@.len() ==> (#[trigger] self.starts@[i])@.len() >= 1)
        &&& (forall|i: int, j: int|
            0 <= i < self.starts@.len() && 0 <= j < self.starts@[i]@.len()
                ==> (#[trigger] self.starts@[i]@[j]) + self.tracks@[i].spec_len() <= self.length)
        &&& (self.tracks@.len() == 0 ==> self.sample_rate == 0 && self.length == 0 && self.channels == 0)
        &&& (self.tracks@.len() > 0 ==> exists|i: int, j: int|
            0 <= i < self.starts@.len() && 0 <= j < self.starts@[i]@.len()
                && (#[trigger] self.starts@[i]@[j]) + self.tracks@[i].spec_len() == self.length)
    }

    /// The schedules as a sequence of offset sequences.
    pub open spec fn spec_startss(&self) -> Seq<Seq<usize>> {
        Seq::new(self.starts@.len(), |i: int| self.starts@[i]@)
    }

    /// The waveforms of the first `n` tracks on channel `ch`.
    pub open spec fn spec_waves(&self, ch: int, n: int) -> Seq<Seq<u32>>
        decreases self, 0int, n,
        when n <= self.tracks@.len()
    {
        if n <= 0 {
            Seq::empty()
        } else {
            self.spec_waves(ch, n - 1).push(self.tracks@[n - 1].spec_waveform(ch))
        }
    }

    /// The mixed output waveform of channel `ch`: every scheduled copy of
    /// every track summed into a silent buffer of the composition's length.
    pub open spec fn spec_mix(&self, ch: int) -> Seq<u32>
        decreases self, 1int, 0int,
    {
        mix_waves(
            self.length as nat,
            self.spec_waves(ch, self.tracks@.len() as int),
            self.spec_startss(),
            self.tracks@.len() as int,
        )
    }
}

impl Sample {
    /// The sample rate of this source.
    pub open spec fn spec_rate(&self) -> u32 {
        match self {
            Sample::Sine(s) => s.sample_rate,
            Sample::Wave(w) => w.sample_rate,
            Sample::Multi(m) => m.sample_rate,
            Sample::Comp(c) => c.sample_rate,
        }
    }

    /// The number of time steps per channel.
    pub open spec fn spec_len(&self) -> int {
        match self {
            Sample::Sine(s) => s.length as int,
            Sample::Wave(w) => w.samples@.len() as int,
            Sample::Multi(m) => m.length as int,
            Sample::Comp(c) => c.length as int,
        }
    }

    /// The number of channels.
    pub open spec fn spec_channels(&self) -> int {
        match self {
            Sample::Sine(_) => 1,
            Sample::Wave(_) => 1,
            Sample::Multi(m) => m.channels@.len() as int,
            Sample::Comp(c) => c.channels as int,
        }
    }

    /// Well-formedness of the source and everything it owns.
    pub open spec fn wf(&self) -> bool
        decreases self,
    {
        match self {
            Sample::Sine(_) => true,
            Sample::Wave(_) => true,
            Sample::Multi(m) => m.wf(),
            Sample::Comp(c) => c.wf(),
        }
    }

    /// The waveform of channel `ch`. Mono sources carry their data on
    /// channel 0 and the argument is ignored; containers select the channel.
    pub open spec fn spec_waveform(&self, ch: int) -> Seq<u32>
        decreases self, 2int, 0int,
    {
        match self {
            Sample::Sine(s) => s.spec_waveform(),
            Sample::Wave(w) => w.samples@,
            Sample::Multi(m) =>
                if 0 <= ch < m.channels@.len() {
                    m.channels@[ch].spec_waveform(0)
                } else {
                    Seq::empty()
                },
            Sample::Comp(c) => c.spec_mix(ch),
        }
    }
}

impl SineWave {
    /// A sinusoid of the given frequency, length, and peak amplitude
    /// (frequency and amplitude given as amplitude codes), at the default
    /// sample rate.
    pub fn new(frequency: u32, length: usize, amplitude: u32) -> (r: SineWave)
        ensures
            r.frequency == frequency,
            r.length == length,
            r.amplitude == amplitude,
            r.sample_rate == RATE,
    {
        SineWave { frequency, length, amplitude, sample_rate: RATE }
    }

    /// The sample rate of the generator.
    pub fn sample_rate(&self) -> (r: u32)
        ensures
            r == self.sample_rate,
    {
        self.sample_rate
    }

    /// The number of time steps.
    pub fn length(&self) -> (r: usize)
        ensures
            r == self.length,
    {
        self.length
    }

    /// The channel count: a sinusoid is mono.
    pub fn channels(&self) -> (r: u16)
        ensures
            r == 1u16,
    {
        1
    }

    /// The materialized waveform of channel `channel`: the sinusoid for
    /// channel 0, absent for any other channel.
    pub fn waveform(&self, channel: u16) -> (r: Option<Vec<u32>>)
        ensures
            r is Some <==> channel == 0,
            r matches Some(w) ==> w@ == self.spec_waveform(),
    {
        if channel > 0 {
            return None;
        }
        let mut wave: Vec<u32> = Vec::new();
        let rate_code = usize_to_code(self.sample_rate as usize);
        let turn = mul_code(CODE_TWO_PI, self.frequency);
        let mut t: usize = 0;
        while t < self.length
            invariant
                t <= self.length,
                rate_code == code_of_usize(self.sample_rate as usize),
                turn == mul_codes(CODE_TWO_PI, self.frequency),
                wave@.len() == t as int,
                forall|i: int| 0 <= i < t as int
                    ==> wave@[i] == sine_code_at(self.frequency, self.amplitude, self.sample_rate, i as usize),
            decreases self.length - t,
        {
            let tc = div_code(usize_to_code(t), rate_code);
            let v = mul_code(self.amplitude, sin_code(mul_code(turn, tc)));
            wave.push(v);
            t = t + 1;
        }
        proof {
            assert(wave@ =~= self.spec_waveform());
        }
        Some(wave)
    }
}

impl WaveForm {
    /// A mono buffer holding a copy of the given amplitude codes, at the
    /// default sample rate.
    pub fn from(samples: &Vec<u32>) -> (r: WaveForm)
        ensures
            r.sample_rate == RATE,
            r.samples@ == samples@,
    {
        WaveForm { sample_rate: RATE, samples: copy_codes(samples) }
    }

    /// The sample rate of the buffer.
    pub fn sample_rate(&self) -> (r: u32)
        ensures
            r == self.sample_rate,
    {
        self.sample_rate
    }

    /// The number of stored samples.
    pub fn length(&self) -> (r: usize)
        ensures
            r as int == self.samples@.len(),
    {
        self.samples.len()
    }

    /// The channel count: a buffer is mono.
    pub fn channels(&self) -> (r: u16)
        ensures
            r == 1u16,
    {
        1
    }

    /// A copy of the stored buffer for channel 0, absent for any other
    /// channel.
    pub fn waveform(&self, channel: u16) -> (r: Option<Vec<u32>>)
        ensures
            r is Some <==> channel == 0,
            r matches Some(w) ==> w@ == self.samples@,
    {
        if channel > 0 {
            return None;
        }
        Some(copy_codes(&self.samples))
    }
}

/// Two compositions whose first `n` tracks have equal waveforms on channel
/// `ch` collect equal waveform sequences for that channel.
pub proof fn lemma_spec_waves_congruent(a: Composition, b: Composition, ch: int, n: int)
    requires
        n <= a.tracks@.len(),
        a.tracks@.len() == b.tracks@.len(),
        forall|i: int| 0 <= i < n
            ==> (#[trigger] a.tracks@[i].spec_waveform(ch)) == b.tracks@[i].spec_waveform(ch),
    ensures
        a.spec_waves(ch, n) == b.spec_waves(ch, n),
    decreases n,
{
    if n > 0 {
        lemma_spec_waves_congruent(a, b, ch, n - 1);
        assert(a.tracks@[n - 1].spec_waveform(ch) == b.tracks@[n - 1].spec_waveform(ch));
        assert(a.spec_waves(ch, n) == a.spec_waves(ch, n - 1).push(a.tracks@[n - 1].spec_waveform(ch)));
        assert(b.spec_waves(ch, n) == b.spec_waves(ch, n - 1).push(b.tracks@[n - 1].spec_waveform(ch)));
    } else {
        assert(a.spec_waves(ch, n) =~= b.spec_waves(ch, n));
    }
}

impl Sample {
    /// A fully independent deep copy: every owned buffer is copied, nothing
    /// is shared with the original, and every observation — sample rate,
    /// length, channel count, well-formedness, and the waveform of every
    /// channel — is preserved.
    pub fn box_clone(&self) -> (r: Sample)
        ensures
            r.spec_rate() == self.spec_rate(),
            r.spec_len() == self.spec_len(),
            r.spec_channels() == self.spec_channels(),
            r.wf() <==> self.wf(),
            forall|ch: int| (#[trigger] r.spec_waveform(ch)) == self.spec_waveform(ch),
        decreases self,
    {
        match self {
            Sample::Sine(s) => {
                let copy = SineWave {
                    frequency: s.frequency,
                    amplitude: s.amplitude,
                    sample_rate: s.sample_rate,
                    length: s.length,
                };
                proof {
                    assert(copy == *s);
                    assert(Sample::Sine(copy) == *self);
                }
                Sample::Sine(copy)
            },
            Sample::Wave(w) => {
                let copy = WaveForm { sample_rate: w.sample_rate, samples: copy_codes(&w.samples) };
                proof {
                    assert forall|ch: int|
                        (#[trigger] Sample::Wave(copy).spec_waveform(ch))
                            == Sample::Wave(*w).spec_waveform(ch) by {}
                }
                Sample::Wave(copy)
            },
            Sample::Multi(m) => {
                let mut channels: Vec<Sample> = Vec::new();
                let mut i: usize = 0;
                while i < m.channels.len()
                    invariant
                        i <= m.channels@.len(),
                        channels@.len() == i as int,
                        forall|k: int| 0 <= k < i as int ==> {
                            let c = #[trigger] channels@[k];
                            &&& c.spec_rate() == m.channels@[k].spec_rate()
                            &&& c.spec_len() == m.channels@[k].spec_len()
                            &&& c.spec_channels() == m.channels@[k].spec_channels()
                            &&& (c.wf() <==> m.channels@[k].wf())
                            &&& forall|ch: int| (#[trigger] c.spec_waveform(ch)) == m.channels@[k].spec_waveform(ch)
                        },
                    decreases m.channels@.len() - i,
                {
                    proof {
                        assert(decreases_to!(*self => *m));
                        assert(decreases_to!(*m => m.channels));
                        assert(decreases_to!(m.channels => m.channels[i as int]));
                    }
                    let c = m.channels[i].box_clone();
                    channels.push(c);
                    i = i + 1;
                }
                let out = MultiChannel { sample_rate: m.sample_rate, length: m.length, channels };
                proof {
                    if m.wf() {
                        assert forall|i: int| 0 <= i < out.channels@.len() implies {
                            let c = #[trigger] out.channels@[i];
                            &&& c.wf()
                            &&& c.spec_channels() == 1
                            &&& c.spec_rate() == out.sample_rate
                            &&& c.spec_len() == out.length as int
                        } by {
                            assert(m.channels@[i].wf());
                        }
                        assert(out.wf());
                    }
                    if out.wf() {
                        assert forall|i: int| 0 <= i < m.channels@.len() implies {
                            let c = #[trigger] m.channels@[i];
                            &&& c.wf()
                            &&& c.spec_channels() == 1
                            &&& c.spec_rate() == m.sample_rate
                            &&& c.spec_len() == m.length as int
                        } by {
                            assert(out.channels@[i].wf());
                        }
                        assert(m.wf());
                    }
                    assert forall|ch: int|
                        (#[trigger] Sample::Multi(out).spec_waveform(ch))
                            == Sample::Multi(*m).spec_waveform(ch) by {
                        if 0 <= ch < out.channels@.len() {
                            assert(out.channels@[ch].spec_waveform(0) == m.channels@[ch].spec_waveform(0));
                        }
                    }
                }
                Sample::Multi(out)
            },
            Sample::Comp(c) => {
                let mut tracks: Vec<Sample> = Vec::new();
                let mut i: usize = 0;
                while i < c.tracks.len()
                    invariant
                        i <= c.tracks@.len(),
                        tracks@.len() == i as int,
                        forall|k: int| 0 <= k < i as int ==> {
                            let tr = #[trigger] tracks@[k];
                            &&& tr.spec_rate() == c.tracks@[k].spec_rate()
                            &&& tr.spec_len() == c.tracks@[k].spec_len()
                            &&& tr.spec_channels() == c.tracks@[k].spec_channels()
                            &&& (tr.wf() <==> c.tracks@[k].wf())
                            &&& forall|ch: int| (#[trigger] tr.spec_waveform(ch)) == c.tracks@[k].spec_waveform(ch)
                        },
                    decreases c.tracks@.len() - i,
                {
                    proof {
                        assert(decreases_to!(*self => *c));
                        assert(decreases_to!(*c => c.tracks));
                        assert(decreases_to!(c.tracks => c.tracks[i as int]));
                    }
                    let tr = c.tracks[i].box_clone();
                    tracks.push(tr);
                    i = i + 1;
                }
                let mut starts: Vec<Vec<usize>> = Vec::new();
                let mut i: usize = 0;
                while i < c.starts.len()
                    invariant
                        i <= c.starts@.len(),
                        starts@.len() == i as int,
                        forall|k: int| 0 <= k < i as int
                            ==> (#[trigger] starts@[k])@ == c.starts@[k]@,
                    decreases c.starts@.len() - i,
                {
                    let row = copy_usizes(&c.starts[i]);
                    starts.push(row);
                    i = i + 1;
                }
                let out = Composition {
                    sample_rate: c.sample_rate,
                    length: c.length,
                    channels: c.channels,
                    tracks,
                    starts,
                };
                proof {
                    assert(out.spec_startss() =~= c.spec_startss());
                    assert forall|ch: int|
                        (#[trigger] Sample::Comp(out).spec_waveform(ch))
                            == Sample::Comp(*c).spec_waveform(ch) by {
                        lemma_spec_waves_congruent(out, *c, ch, out.tracks@.len() as int);
                        assert(out.spec_waves(ch, out.tracks@.len() as int)
                            == c.spec_waves(ch, c.tracks@.len() as int));
                        assert(out.spec_startss() == c.spec_startss());
                        assert(out.spec_mix(ch) == c.spec_mix(ch));
                    }
                    if c.wf() {
                        assert forall|i: int| 0 <= i < out.tracks@.len() implies {
                            let tr = #[trigger] out.tracks@[i];
                            &&& tr.wf()
                            &&& tr.spec_rate() == out.sample_rate
                            &&& tr.spec_channels() == out.channels as int
                        } by {
                            assert(c.tracks@[i].wf());
                        }
                        assert forall|i: int, j: int|
                            0 <= i < out.starts@.len() && 0 <= j < out.starts@[i]@.len()
                                implies (#[trigger] out.starts@[i]@[j]) + out.tracks@[i].spec_len()
                                    <= out.length by {
                            assert(c.starts@[i]@[j] + c.tracks@[i].spec_len() <= c.length);
                        }
                        if c.tracks@.len() > 0 {
                            let (wi, wj) = choose|wi: int, wj: int|
                                0 <= wi < c.starts@.len() && 0 <= wj < c.starts@[wi]@.len()
                                    && (#[trigger] c.starts@[wi]@[wj]) + c.tracks@[wi].spec_len() == c.length;
                            assert(0 <= wi < out.starts@.len() && 0 <= wj < out.starts@[wi]@.len()
                                && out.starts@[wi]@[wj] + out.tracks@[wi].spec_len() == out.length);
                        }
                        assert(out.wf());
                    }
                    if out.wf() {
                        assert forall|i: int| 0 <= i < c.tracks@.len() implies {
                            let tr = #[trigger] c.tracks@[i];
                            &&& tr.wf()
                            &&& tr.spec_rate() == c.sample_rate
                            &&& tr.spec_channels() == c.channels as int
                        } by {
                            assert(out.tracks@[i].wf());
                        }
                        assert forall|i: int| 0 <= i < c.starts@.len()
                            implies (#[trigger] c.starts@[i])@.len() >= 1 by {
                            assert(out.starts@[i]@.len() >= 1);
                        }
                        assert forall|i: int, j: int|
                            0 <= i < c.starts@.len() && 0 <= j < c.starts@[i]@.len()
                                implies (#[trigger] c.starts@[i]@[j]) + c.tracks@[i].spec_len()
                                    <= c.length by {
                            assert(out.starts@[i]@[j] + out.tracks@[i].spec_len() <= out.length);
                        }
                        if out.tracks@.len() > 0 {
                            let (wi, wj) = choose|wi: int, wj: int|
                                0 <= wi < out.starts@.len() && 0 <= wj < out.starts@[wi]@.len()
                                    && (#[trigger] out.starts@[wi]@[wj]) + out.tracks@[wi].spec_len() == out.length;
                            assert(0 <= wi < c.starts@.len() && 0 <= wj < c.starts@[wi]@.len()
                                && c.starts@[wi]@[wj] + c.tracks@[wi].spec_len() == c.length);
                        }
                        assert(c.wf());
                    }
                }
                Sample::Comp(out)
            },
        }
    }
}

/// Mixing two scheduled waveforms into a buffer in either order gives the
/// same output whenever their covered ranges are disjoint: every index
/// receives a contribution from at most one of the two copies, so the two
/// orders perform the same additions at every index.
pub proof fn lemma_mix_disjoint_commutes(
    acc: Seq<u32>,
    wa: Seq<u32>,
    sa: int,
    wb: Seq<u32>,
    sb: int,
)
    requires
        sa + wa.len() <= sb || sb + wb.len() <= sa,
    ensures
        mix_add(mix_add(acc, wa, sa), wb, sb) == mix_add(mix_add(acc, wb, sb), wa, sa),
{
    assert(mix_add(mix_add(acc, wa, sa), wb, sb) =~= mix_add(mix_add(acc, wb, sb), wa, sa));
}

/// Order independence for two single-start tracks with disjoint ranges:
/// mixing track `A` at `sa` and then track `B` at `sb` into silence equals
/// mixing `B` and then `A`, element for element.
pub proof fn lemma_two_tracks_order_independent(
    len: nat,
    wa: Seq<u32>,
    sa: usize,
    wb: Seq<u32>,
    sb: usize,
)
    requires
        sa + wa.len() <= sb as int || sb + wb.len() <= sa as int,
    ensures
        mix_waves(len, seq![wa, wb], seq![seq![sa], seq![sb]], 2) == mix_waves(
            len,
            seq![wb, wa],
            seq![seq![sb], seq![sa]],
            2,
        ),
{
    reveal_with_fuel(mix_waves, 3);
    reveal_with_fuel(mix_starts, 2);
    let zeros = Seq::new(len, |t: int| CODE_ZERO);
    lemma_mix_disjoint_commutes(zeros, wa, sa as int, wb, sb as int);
    assert(mix_waves(len, seq![wa, wb], seq![seq![sa], seq![sb]], 2) == mix_add(
        mix_add(zeros, wa, sa as int),
        wb,
        sb as int,
    ));
    assert(mix_waves(len, seq![wb, wa], seq![seq![sb], seq![sa]], 2) == mix_add(
        mix_add(zeros, wb, sb as int),
        wa,
        sa as int,
    ));
}

/// The multiset of amplitude codes that the scheduled copies of one track
/// contribute at output index `t`, over the first `m` offsets.
pub open spec fn track_contribs_at(tw: Seq<u32>, starts: Seq<usize>, m: int, t: int) -> Multiset<
    u32,
>
    decreases m,
{
    if m <= 0 {
        Multiset::empty()
    } else {
        let rest = track_contribs_at(tw, starts, m - 1, t);
        let st = starts[m - 1] as int;
        if st <= t < st + tw.len() {
            rest.insert(tw[t - st])
        } else {
            rest
        }
    }
}

/// The multiset of amplitude codes contributed at output index `t` by the
/// first `n` tracks, each at all of its offsets.
pub open spec fn contribs_at(waves: Seq<Seq<u32>>, startss: Seq<Seq<usize>>, n: int, t: int) -> Multiset<u32>
    decreases n,
{
    if n <= 0 {
        Multiset::empty()
    } else {
        contribs_at(waves, startss, n - 1, t).add(
            track_contribs_at(waves[n - 1], startss[n - 1], startss[n - 1].len() as int, t),
        )
    }
}

/// Order independence of what is summed, for any two tracks and any
/// schedules, overlapping or not: registering track `A` then track `B`
/// contributes the same multiset of amplitude codes at every output index
/// as registering `B` then `A`. The executable mix folds binary32 addition
/// over exactly these contributions, in registration order.
pub proof fn lemma_contribs_order_independent(
    wa: Seq<u32>,
    sa: Seq<usize>,
    wb: Seq<u32>,
    sb: Seq<usize>,
    t: int,
)
    ensures
        contribs_at(seq![wa, wb], seq![sa, sb], 2, t) == contribs_at(
            seq![wb, wa],
            seq![sb, sa],
            2,
            t,
        ),
{
    reveal_with_fuel(contribs_at, 3);
    let ca = track_contribs_at(wa, sa, sa.len() as int, t);
    let cb = track_contribs_at(wb, sb, sb.len() as int, t);
    assert(contribs_at(seq![wa, wb], seq![sa, sb], 2, t) == Multiset::empty().add(ca).add(cb));
    assert(contribs_at(seq![wb, wa], seq![sb, sa], 2, t) == Multiset::empty().add(cb).add(ca));
    assert(Multiset::empty().add(ca).add(cb) =~= Multiset::empty().add(cb).add(ca));
}

/// Every valid channel of a well-formed sample has exactly `spec_len`
/// elements.
pub proof fn lemma_waveform_len(s: Sample, ch: int)
    requires
        s.wf(),
        0 <= ch < s.spec_channels(),
    ensures
        s.spec_waveform(ch).len() == s.spec_len(),
    decreases s,
{
    match s {
        Sample::Sine(_) => {},
        Sample::Wave(_) => {},
        Sample::Multi(m) => {
            assert(decreases_to!(s => m));
            assert(decreases_to!(m => m.channels));
            assert(decreases_to!(m.channels => m.channels[ch]));
            assert(m.channels@[ch].wf() && m.channels@[ch].spec_channels() == 1
                && m.channels@[ch].spec_len() == m.length as int);
            lemma_waveform_len(m.channels@[ch], 0);
            assert(s.spec_waveform(ch) == m.channels@[ch].spec_waveform(0));
        },
        Sample::Comp(c) => {
            lemma_mix_waves_len(
                c.length as nat,
                c.spec_waves(ch, c.tracks@.len() as int),
                c.spec_startss(),
                c.tracks@.len() as int,
            );
            assert(s.spec_waveform(ch) == c.spec_mix(ch));
            assert(c.spec_mix(ch) == mix_waves(
                c.length as nat,
                c.spec_waves(ch, c.tracks@.len() as int),
                c.spec_startss(),
                c.tracks@.len() as int,
            ));
        },
    }
}

/// `mix_starts` keeps the length of the buffer it mixes into.
pub proof fn lemma_mix_starts_len(acc: Seq<u32>, tw: Seq<u32>, starts: Seq<usize>, m: int)
    ensures
        mix_starts(acc, tw, starts, m).len() == acc.len(),
    decreases m,
{
    if m > 0 {
        lemma_mix_starts_len(acc, tw, starts, m - 1);
    }
}

/// `mix_waves` produces a buffer of exactly the requested length.
pub proof fn lemma_mix_waves_len(len: nat, waves: Seq<Seq<u32>>, startss: Seq<Seq<usize>>, n: int)
    ensures
        mix_waves(len, waves, startss, n).len() == len,
    decreases n,
{
    if n > 0 {
        lemma_mix_waves_len(len, waves, startss, n - 1);
        lemma_mix_starts_len(mix_waves(len, waves, startss, n - 1), waves[n - 1], startss[n - 1], startss[n - 1].len() as int);
    }
}

/// The collected waveform sequence has one entry per track, in track order.
pub proof fn lemma_spec_waves_index(c: Composition, ch: int, n: int)
    requires
        0 <= n <= c.tracks@.len(),
    ensures
        c.spec_waves(ch, n).len() == n,
        forall|i: int| 0 <= i < n
            ==> c.spec_waves(ch, n)[i] == (#[trigger] c.tracks@[i]).spec_waveform(ch),
    decreases n,
{
    if n > 0 {
        lemma_spec_waves_index(c, ch, n - 1);
    }
}

impl Sample {
    /// The sample rate of this source.
    pub fn sample_rate(&self) -> (r: u32)
        ensures
            r == self.spec_rate(),
    {
        match self {
            Sample::Sine(s) => s.sample_rate,
            Sample::Wave(w) => w.sample_rate,
            Sample::Multi(m) => m.sample_rate,
            Sample::Comp(c) => c.sample_rate,
        }
    }

    /// The number of time steps per channel.
    pub fn length(&self) -> (r: usize)
        ensures
            r as int == self.spec_len(),
    {
        match self {
            Sample::Sine(s) => s.length,
            Sample::Wave(w) => w.samples.len(),
            Sample::Multi(m) => m.length,
            Sample::Comp(c) => c.length,
        }
    }

    /// The number of channels.
    pub fn channels(&self) -> (r: u16)
        requires
            self.wf(),
        ensures
            r as int == self.spec_channels(),
    {
        match self {
            Sample::Sine(_) => 1,
            Sample::Wave(_) => 1,
            Sample::Multi(m) => m.channels.len() as u16,
            Sample::Comp(c) => c.channels,
        }
    }

    /// The materialized waveform of channel `channel`, or absent when the
    /// channel index is out of range.
    pub fn waveform(&self, channel: u16) -> (r: Option<Vec<u32>>)
        requires
            self.wf(),
        ensures
            r is Some <==> (channel as int) < self.spec_channels(),
            r matches Some(w) ==> w@ == self.spec_waveform(channel as int)
                && w@.len() == self.spec_len(),
        decreases self, 1int,
    {
        match self {
            Sample::Sine(s) => s.waveform(channel),
            Sample::Wave(w) => w.waveform(channel),
            Sample::Multi(m) => {
                proof {
                    assert(decreases_to!(*self => *m));
                }
                m.waveform(channel)
            },
            Sample::Comp(c) => {
                proof {
                    assert(decreases_to!(*self => *c));
                }
                c.waveform(channel)
            },
        }
    }
}

impl Sample {
    /// A crop: every channel restricted to the half-open index range
    /// `[start, end)` and stored as a buffer at this sample's rate, the
    /// channels reassembled as a multi-channel sample. The rate, once
    /// established, is kept by the crop.
    pub fn sample(&self, start: usize, end: usize) -> (r: Sample)
        requires
            self.wf(),
            start <= end,
            end as int <= self.spec_len(),
        ensures
            r.wf(),
            r.spec_channels() == self.spec_channels(),
            self.spec_channels() > 0 ==> r.spec_rate() == self.spec_rate() && r.spec_len() == end
                - start,
            self.spec_channels() == 0 ==> r.spec_rate() == 0 && r.spec_len() == 0,
            forall|ch: int| 0 <= ch < self.spec_channels()
                ==> (#[trigger] r.spec_waveform(ch))
                    == self.spec_waveform(ch).subrange(start as int, end as int),
    {
        let n = self.channels();
        let rate = self.sample_rate();
        let mut channels: Vec<Sample> = Vec::new();
        let mut ch: u16 = 0;
        while ch < n
            invariant
                ch <= n,
                channels@.len() == ch as int,
                forall|c: int| 0 <= c < ch as int ==> {
                    let piece = #[trigger] channels@[c];
                    &&& piece.wf()
                    &&& piece.spec_channels() == 1
                    &&& piece.spec_rate() == rate
                    &&& piece.spec_len() == end - start
                    &&& piece.spec_waveform(0) == self.spec_waveform(c).subrange(
                        start as int,
                        end as int,
                    )
                },
            decreases n - ch,
        {
            let w = match self.waveform(ch) {
                Some(w) => w,
                None => {
                    break;
                },
            };
            let mut cropped: Vec<u32> = Vec::new();
            let mut i: usize = start;
            while i < end
                invariant
                    start <= i <= end,
                    end as int <= w@.len(),
                    cropped@.len() == i - start,
                    forall|k: int| 0 <= k < i - start ==> cropped@[k] == w@[start as int + k],
                decreases end - i,
            {
                cropped.push(w[i]);
                i = i + 1;
            }
            let piece = Sample::Wave(WaveForm { sample_rate: rate, samples: cropped });
            proof {
                assert(piece.spec_waveform(0) =~= self.spec_waveform(ch as int).subrange(
                    start as int,
                    end as int,
                ));
            }
            channels.push(piece);
            ch = ch + 1;
        }
        let m = MultiChannel {
            sample_rate: if channels.len() > 0 { rate } else { 0 },
            length: if channels.len() > 0 { end - start } else { 0 },
            channels,
        };
        proof {
            assert(m.wf());
            assert forall|c: int| 0 <= c < self.spec_channels()
                implies (#[trigger] Sample::Multi(m).spec_waveform(c))
                    == self.spec_waveform(c).subrange(start as int, end as int) by {
                assert(Sample::Multi(m).spec_waveform(c) == m.channels@[c].spec_waveform(0));
            }
        }
        Sample::Multi(m)
    }

    /// A crop with the range given in seconds: each bound is converted to a
    /// sample index as the binary32 product of the time and the sample rate,
    /// rounded to the nearest index; an out-of-bounds or reversed range is
    /// rejected.
    pub fn sample_sec(&self, start: u32, end: u32) -> (r: Result<Sample, Error>)
        requires
            self.wf(),
        ensures
            ({
                let s = sec_index(start, self.spec_rate());
                let e = sec_index(end, self.spec_rate());
                &&& (r is Ok <==> s <= e && e <= self.spec_len())
                &&& (r is Err ==> r->Err_0 == Error::ShapeMismatch)
                &&& (r matches Ok(out) ==> {
                    &&& out.wf()
                    &&& out.spec_channels() == self.spec_channels()
                    &&& (self.spec_channels() > 0 ==> out.spec_rate() == self.spec_rate()
                        && out.spec_len() == e - s)
                    &&& forall|ch: int| 0 <= ch < self.spec_channels()
                        ==> (#[trigger] out.spec_waveform(ch)) == self.spec_waveform(ch).subrange(
                            s,
                            e,
                        )
                })
            }),
    {
        let rate = self.sample_rate();
        let s = sec_to_index(start, rate);
        let e = sec_to_index(end, rate);
        if s > e {
            return Result::Err(Error::ShapeMismatch);
        }
        if e > self.length() {
            return Result::Err(Error::ShapeMismatch);
        }
        Result::Ok(self.sample(s, e))
    }

    /// A same-shape copy with every amplitude code multiplied by `gain` in
    /// binary32: each channel is scaled into a stored buffer at this
    /// sample's rate and the channels are reassembled.
    pub fn scale(&self, gain: u32) -> (r: Sample)
        requires
            self.wf(),
        ensures
            r.wf(),
            r.spec_channels() == self.spec_channels(),
            self.spec_channels() > 0 ==> r.spec_rate() == self.spec_rate()
                && r.spec_len() == self.spec_len(),
            self.spec_channels() == 0 ==> r.spec_rate() == 0 && r.spec_len() == 0,
            forall|ch: int| 0 <= ch < self.spec_channels()
                ==> (#[trigger] r.spec_waveform(ch)) == Seq::new(
                    self.spec_len() as nat,
                    |t: int| mul_codes(gain, self.spec_waveform(ch)[t]),
                ),
    {
        let n = self.channels();
        let len = self.length();
        let rate = self.sample_rate();
        let mut channels: Vec<Sample> = Vec::new();
        let mut ch: u16 = 0;
        while ch < n
            invariant
                ch <= n,
                channels@.len() == ch as int,
                forall|c: int| 0 <= c < ch as int ==> {
                    let piece = #[trigger] channels@[c];
                    &&& piece.wf()
                    &&& piece.spec_channels() == 1
                    &&& piece.spec_rate() == rate
                    &&& piece.spec_len() == len as int
                    &&& piece.spec_waveform(0) == Seq::new(
                        self.spec_len() as nat,
                        |t: int| mul_codes(gain, self.spec_waveform(c)[t]),
                    )
                },
            decreases n - ch,
        {
            let w = match self.waveform(ch) {
                Some(w) => w,
                None => {
                    break;
                },
            };
            let mut scaled: Vec<u32> = Vec::new();
            let mut t: usize = 0;
            while t < w.len()
                invariant
                    t <= w@.len(),
                    scaled@.len() == t as int,
                    forall|k: int| 0 <= k < t as int ==> scaled@[k] == mul_codes(gain, w@[k]),
                decreases w@.len() - t,
            {
                scaled.push(mul_code(gain, w[t]));
                t = t + 1;
            }
            let piece = Sample::Wave(WaveForm { sample_rate: rate, samples: scaled });
            proof {
                assert(piece.spec_waveform(0) =~= Seq::new(
                    self.spec_len() as nat,
                    |t: int| mul_codes(gain, self.spec_waveform(ch as int)[t]),
                ));
            }
            channels.push(piece);
            ch = ch + 1;
        }
        let m = MultiChannel {
            sample_rate: if channels.len() > 0 { rate } else { 0 },
            length: if channels.len() > 0 { len } else { 0 },
            channels,
        };
        proof {
            assert(m.wf());
        }
        Sample::Multi(m)
    }
}

impl MultiChannel {
    /// An empty assembly: no channels, sample rate and length unset (zero).
    pub fn new() -> (r: MultiChannel)
        ensures
            r.wf(),
            r.channels@.len() == 0,
            r.sample_rate == 0,
            r.length == 0,
    {
        MultiChannel { sample_rate: 0, length: 0, channels: Vec::new() }
    }

    /// A two-channel assembly of the given left and right mono samples.
    ///
    /// Fails with a shape mismatch exactly when the two samples differ in
    /// length or sample rate, or either is not mono.
    pub fn new_dual(left: &Sample, right: &Sample) -> (r: Result<MultiChannel, Error>)
        requires
            left.wf(),
            right.wf(),
        ensures
            r is Err <==> (left.spec_len() != right.spec_len()
                || left.spec_rate() != right.spec_rate()
                || left.spec_channels() != 1
                || right.spec_channels() != 1),
            r is Err ==> r->Err_0 == Error::ShapeMismatch,
            r matches Ok(m) ==> {
                &&& m.wf()
                &&& m.channels@.len() == 2
                &&& m.sample_rate == left.spec_rate()
                &&& m.length as int == left.spec_len()
                &&& m.channels@[0].spec_waveform(0) == left.spec_waveform(0)
                &&& m.channels@[1].spec_waveform(0) == right.spec_waveform(0)
            },
    {
        if left.length() != right.length() {
            return Result::Err(Error::ShapeMismatch);
        }
        if left.sample_rate() != right.sample_rate() {
            return Result::Err(Error::ShapeMismatch);
        }
        if left.channels() != 1 {
            return Result::Err(Error::ShapeMismatch);
        }
        if right.channels() != 1 {
            return Result::Err(Error::ShapeMismatch);
        }
        let mut channels: Vec<Sample> = Vec::new();
        channels.push(left.box_clone());
        channels.push(right.box_clone());
        let m = MultiChannel { sample_rate: left.sample_rate(), length: left.length(), channels };
        Result::Ok(m)
    }

    /// Appends `track` as the next channel.
    ///
    /// Fails with a shape mismatch exactly when `track` is not mono, or when
    /// the assembly is nonempty and `track` disagrees with the established
    /// sample rate or length. The first channel appended adopts its rate and
    /// length for the whole assembly.
    pub fn add_channel(&mut self, track: &Sample) -> (r: Result<(), Error>)
        requires
            old(self).wf(),
            track.wf(),
            old(self).channels@.len() < 0xFFFF,
        ensures
            r is Err <==> (track.spec_channels() != 1
                || (old(self).channels@.len() > 0
                    && (track.spec_rate() != old(self).sample_rate
                        || track.spec_len() != old(self).length as int))),
            r is Err ==> r->Err_0 == Error::ShapeMismatch && *final(self) == *old(self),
            r is Ok ==> {
                &&& final(self).wf()
                &&& final(self).channels@.len() == old(self).channels@.len() + 1
                &&& final(self).sample_rate == track.spec_rate()
                &&& final(self).length as int == track.spec_len()
                &&& (forall|i: int| 0 <= i < old(self).channels@.len()
                    ==> #[trigger] final(self).channels@[i] == old(self).channels@[i])
                &&& final(self).channels@[old(self).channels@.len() as int].spec_waveform(0)
                    == track.spec_waveform(0)
            },
    {
        if track.channels() != 1 {
            return Result::Err(Error::ShapeMismatch);
        }
        if self.channels.len() == 0 {
            self.sample_rate = track.sample_rate();
            self.length = track.length();
        } else {
            if self.sample_rate != track.sample_rate() {
                return Result::Err(Error::ShapeMismatch);
            }
            if self.length != track.length() {
                return Result::Err(Error::ShapeMismatch);
            }
        }
        let copy = track.box_clone();
        self.channels.push(copy);
        proof {
            assert forall|i: int| 0 <= i < self.channels@.len() implies {
                let c = #[trigger] self.channels@[i];
                &&& c.wf()
                &&& c.spec_channels() == 1
                &&& c.spec_rate() == self.sample_rate
                &&& c.spec_len() == self.length as int
            } by {
                if i < old(self).channels@.len() {
                    assert(old(self).channels@[i].wf());
                }
            }
            assert(self.wf());
        }
        Result::Ok(())
    }

    /// The sample rate of the assembly.
    pub fn sample_rate(&self) -> (r: u32)
        ensures
            r == self.sample_rate,
    {
        self.sample_rate
    }

    /// The number of time steps per channel.
    pub fn length(&self) -> (r: usize)
        ensures
            r == self.length,
    {
        self.length
    }

    /// The number of channels held.
    pub fn channels(&self) -> (r: u16)
        requires
            self.wf(),
        ensures
            r as int == self.channels@.len(),
    {
        self.channels.len() as u16
    }

    /// The waveform of the `channel`-th stored channel, or absent when the
    /// index is out of range.
    pub fn waveform(&self, channel: u16) -> (r: Option<Vec<u32>>)
        requires
            self.wf(),
        ensures
            r is Some <==> (channel as int) < self.channels@.len(),
            r matches Some(w) ==> w@ == self.channels@[channel as int].spec_waveform(0)
                && w@.len() == self.length as int,
        decreases self, 0int,
    {
        if (channel as usize) < self.channels.len() {
            proof {
                assert(decreases_to!(*self => self.channels));
                assert(decreases_to!(self.channels => self.channels[channel as int]));
            }
            self.channels[channel as usize].waveform(0)
        } else {
            None
        }
    }
}

impl Composition {
    /// An empty composition: no tracks, rate, channel count, and length
    /// unset (zero).
    pub fn new() -> (r: Composition)
        ensures
            r.wf(),
            r.tracks@.len() == 0,
            r.sample_rate == 0,
            r.length == 0,
            r.channels == 0,
    {
        Composition { sample_rate: 0, length: 0, channels: 0, tracks: Vec::new(), starts: Vec::new() }
    }

    /// The sample rate of the mix.
    pub fn sample_rate(&self) -> (r: u32)
        ensures
            r == self.sample_rate,
    {
        self.sample_rate
    }

    /// The number of time steps of the mixed output.
    pub fn length(&self) -> (r: usize)
        ensures
            r == self.length,
    {
        self.length
    }

    /// The number of channels of the mix.
    pub fn channels(&self) -> (r: u16)
        ensures
            r == self.channels,
    {
        self.channels
    }

    /// Registers `track` as a new track with one schedule entry at `start`
    /// and returns its stable identifier.
    ///
    /// The first track adopts its sample rate and channel count for the
    /// whole composition; afterwards a track that disagrees with either is
    /// rejected with a shape mismatch. The length grows to cover the new
    /// copy and never shrinks.
    pub fn add_track(&mut self, track: &Sample, start: usize) -> (r: Result<usize, Error>)
        requires
            old(self).wf(),
            track.wf(),
            start + track.spec_len() <= usize::MAX,
        ensures
            r is Err <==> (old(self).tracks@.len() > 0
                && (track.spec_rate() != old(self).sample_rate
                    || track.spec_channels() != old(self).channels as int)),
            r is Err ==> r->Err_0 == Error::ShapeMismatch && *final(self) == *old(self),
            r matches Ok(id) ==> {
                &&& id as int == old(self).tracks@.len()
                &&& final(self).wf()
                &&& final(self).sample_rate == track.spec_rate()
                &&& final(self).channels as int == track.spec_channels()
                &&& final(self).length as int == if old(self).tracks@.len() == 0 {
                    start + track.spec_len()
                } else if start + track.spec_len() > old(self).length as int {
                    start + track.spec_len()
                } else {
                    old(self).length as int
                }
                &&& final(self).length >= old(self).length || old(self).tracks@.len() == 0
                &&& final(self).tracks@.len() == old(self).tracks@.len() + 1
                &&& (forall|i: int| 0 <= i < old(self).tracks@.len()
                    ==> #[trigger] final(self).tracks@[i] == old(self).tracks@[i])
                &&& (forall|ch: int| #[trigger] final(self).tracks@[old(self).tracks@.len() as int].spec_waveform(ch)
                    == track.spec_waveform(ch))
                &&& final(self).spec_startss() == old(self).spec_startss().push(seq![start])
            },
    {
        if self.tracks.len() == 0 {
            self.sample_rate = track.sample_rate();
            self.length = track.length() + start;
            self.channels = track.channels();
        } else {
            if self.sample_rate != track.sample_rate() {
                return Result::Err(Error::ShapeMismatch);
            }
            if self.channels != track.channels() {
                return Result::Err(Error::ShapeMismatch);
            }
            if track.length() + start > self.length {
                self.length = track.length() + start;
            }
        }
        let id = self.tracks.len();
        let copy = track.box_clone();
        self.tracks.push(copy);
        let mut entry: Vec<usize> = Vec::new();
        entry.push(start);
        self.starts.push(entry);
        proof {
            assert(self.spec_startss() =~= old(self).spec_startss().push(seq![start]));
            assert forall|i: int| 0 <= i < self.tracks@.len() implies {
                let tr = #[trigger] self.tracks@[i];
                &&& tr.wf()
                &&& tr.spec_rate() == self.sample_rate
                &&& tr.spec_channels() == self.channels as int
            } by {
                if i < old(self).tracks@.len() {
                    assert(old(self).tracks@[i].wf());
                }
            }
            assert forall|i: int, j: int|
                0 <= i < self.starts@.len() && 0 <= j < self.starts@[i]@.len()
                    implies (#[trigger] self.starts@[i]@[j]) + self.tracks@[i].spec_len()
                        <= self.length by {
                if i < old(self).starts@.len() {
                    assert(old(self).starts@[i]@[j] + old(self).tracks@[i].spec_len()
                        <= old(self).length);
                }
            }
            let wi = old(self).tracks@.len() as int;
            assert(self.starts@[wi]@[0] + self.tracks@[wi].spec_len() == start + track.spec_len());
            if start + track.spec_len() < self.length {
                let (oi, oj) = choose|oi: int, oj: int|
                    0 <= oi < old(self).starts@.len() && 0 <= oj < old(self).starts@[oi]@.len()
                        && (#[trigger] old(self).starts@[oi]@[oj]) + old(self).tracks@[oi].spec_len()
                            == old(self).length;
                assert(self.starts@[oi]@[oj] + self.tracks@[oi].spec_len() == self.length);
            }
            assert(self.wf());
        }
        Result::Ok(id)
    }

    /// Registers `track` with its start offset given in seconds: the offset
    /// in samples is the binary32 product of the time and the established
    /// sample rate, rounded to the nearest index. Apart from the conversion
    /// this behaves exactly as [`Composition::add_track`]; an offset that
    /// would push the track past the largest index is rejected.
    pub fn add_track_sec(&mut self, track: &Sample, start: u32) -> (r: Result<usize, Error>)
        requires
            old(self).wf(),
            track.wf(),
        ensures
            ({
                let st = sec_index(start, old(self).sample_rate);
                &&& (st + track.spec_len() > usize::MAX ==> r == Result::<usize, Error>::Err(
                    Error::ShapeMismatch) && *final(self) == *old(self))
                &&& (st + track.spec_len() <= usize::MAX ==> {
                    &&& (r is Err <==> (old(self).tracks@.len() > 0
                        && (track.spec_rate() != old(self).sample_rate
                            || track.spec_channels() != old(self).channels as int)))
                    &&& (r is Err ==> r->Err_0 == Error::ShapeMismatch && *final(self) == *old(
                        self,
                    ))
                    &&& (r matches Ok(id) ==> {
                        &&& id as int == old(self).tracks@.len()
                        &&& final(self).wf()
                        &&& final(self).sample_rate == track.spec_rate()
                        &&& final(self).channels as int == track.spec_channels()
                        &&& final(self).length as int == if old(self).tracks@.len() == 0 {
                            st + track.spec_len()
                        } else if st + track.spec_len() > old(self).length as int {
                            st + track.spec_len()
                        } else {
                            old(self).length as int
                        }
                        &&& final(self).tracks@.len() == old(self).tracks@.len() + 1
                        &&& (forall|i: int| 0 <= i < old(self).tracks@.len()
                            ==> #[trigger] final(self).tracks@[i] == old(self).tracks@[i])
                        &&& (forall|ch: int| #[trigger] final(self).tracks@[old(
                            self,
                        ).tracks@.len() as int].spec_waveform(ch) == track.spec_waveform(ch))
                        &&& final(self).spec_startss() == old(self).spec_startss().push(
                            seq![st as usize],
                        )
                    })
                })
            }),
    {
        let st = sec_to_index(start, self.sample_rate);
        if track.length() > usize::MAX - st {
            return Result::Err(Error::ShapeMismatch);
        }
        self.add_track(track, st)
    }

    /// Adds one more schedule offset for the already-registered track `id`.
    ///
    /// Fails exactly when `id` was never returned by a registration; the
    /// track's buffer is not duplicated. The length grows to cover the new
    /// copy and never shrinks.
    pub fn add_track_id(&mut self, id: usize, start: usize) -> (r: Result<(), Error>)
        requires
            old(self).wf(),
            id < old(self).tracks@.len() ==> start + old(self).tracks@[id as int].spec_len()
                <= usize::MAX,
        ensures
            r is Err <==> id >= old(self).tracks@.len(),
            r is Err ==> r->Err_0 == Error::UnknownTrack && *final(self) == *old(self),
            r is Ok ==> {
                &&& final(self).wf()
                &&& final(self).sample_rate == old(self).sample_rate
                &&& final(self).channels == old(self).channels
                &&& final(self).tracks@ == old(self).tracks@
                &&& final(self).length as int == if start + old(self).tracks@[id as int].spec_len()
                        > old(self).length as int {
                    start + old(self).tracks@[id as int].spec_len()
                } else {
                    old(self).length as int
                }
                &&& final(self).length >= old(self).length
                &&& final(self).length as int >= start + old(self).tracks@[id as int].spec_len()
                &&& final(self).spec_startss() == old(self).spec_startss().update(
                    id as int,
                    old(self).spec_startss()[id as int].push(start),
                )
            },
    {
        if id >= self.tracks.len() {
            return Result::Err(Error::UnknownTrack);
        }
        if self.tracks[id].length() > self.length || start > self.length - self.tracks[id].length() {
            self.length = self.tracks[id].length() + start;
        }
        let mut starts: Vec<Vec<usize>> = Vec::new();
        let mut i: usize = 0;
        while i < self.starts.len()
            invariant
                i <= self.starts@.len(),
                starts@.len() == i as int,
                forall|k: int| 0 <= k < i as int && k != id as int
                    ==> (#[trigger] starts@[k])@ == self.starts@[k]@,
                id < i ==> starts@[id as int]@ == self.starts@[id as int]@.push(start),
            decreases self.starts@.len() - i,
        {
            let mut row = copy_usizes(&self.starts[i]);
            if i == id {
                row.push(start);
            }
            starts.push(row);
            i = i + 1;
        }
        self.starts = starts;
        proof {
            assert(self.spec_startss() =~= old(self).spec_startss().update(
                id as int,
                old(self).spec_startss()[id as int].push(start),
            ));
            assert forall|i2: int, j: int|
                0 <= i2 < self.starts@.len() && 0 <= j < self.starts@[i2]@.len()
                    implies (#[trigger] self.starts@[i2]@[j]) + self.tracks@[i2].spec_len()
                        <= self.length by {
                if i2 != id as int || j < old(self).starts@[i2]@.len() {
                    assert(old(self).starts@[i2]@[j] + old(self).tracks@[i2].spec_len()
                        <= old(self).length);
                }
            }
            if (start + old(self).tracks@[id as int].spec_len()) as int <= old(self).length as int {
                let (oi, oj) = choose|oi: int, oj: int|
                    0 <= oi < old(self).starts@.len() && 0 <= oj < old(self).starts@[oi]@.len()
                        && (#[trigger] old(self).starts@[oi]@[oj]) + old(self).tracks@[oi].spec_len()
                            == old(self).length;
                assert(self.starts@[oi]@[oj] == old(self).starts@[oi]@[oj]);
                assert(self.starts@[oi]@[oj] + self.tracks@[oi].spec_len() == self.length);
            } else {
                assert(self.starts@[id as int]@[old(self).starts@[id as int]@.len() as int]
                    + self.tracks@[id as int].spec_len() == self.length);
            }
            assert(self.wf());
        }
        Result::Ok(())
    }

    /// Adds a schedule offset for track `id`, the offset given in seconds:
    /// the binary32 product of the time and the established sample rate,
    /// rounded to the nearest index. Apart from the conversion this behaves
    /// exactly as [`Composition::add_track_id`]; an offset that would push
    /// the track past the largest index is rejected.
    pub fn add_track_id_sec(&mut self, id: usize, start: u32) -> (r: Result<(), Error>)
        requires
            old(self).wf(),
        ensures
            ({
                let st = sec_index(start, old(self).sample_rate);
                &&& (id >= old(self).tracks@.len() ==> r == Result::<(), Error>::Err(
                    Error::UnknownTrack) && *final(self) == *old(self))
                &&& (id < old(self).tracks@.len() && st + old(self).tracks@[id as int].spec_len()
                        > usize::MAX ==> r == Result::<(), Error>::Err(Error::ShapeMismatch)
                            && *final(self) == *old(self))
                &&& (id < old(self).tracks@.len() && st + old(self).tracks@[id as int].spec_len()
                        <= usize::MAX ==> {
                    &&& r is Ok
                    &&& final(self).wf()
                    &&& final(self).sample_rate == old(self).sample_rate
                    &&& final(self).channels == old(self).channels
                    &&& final(self).tracks@ == old(self).tracks@
                    &&& final(self).length as int == if st + old(self).tracks@[id as int].spec_len()
                            > old(self).length as int {
                        st + old(self).tracks@[id as int].spec_len()
                    } else {
                        old(self).length as int
                    }
                    &&& final(self).length >= old(self).length
                    &&& final(self).length as int >= st + old(self).tracks@[id as int].spec_len()
                    &&& final(self).spec_startss() == old(self).spec_startss().update(
                        id as int,
                        old(self).spec_startss()[id as int].push(st as usize),
                    )
                })
            }),
    {
        let st = sec_to_index(start, self.sample_rate);
        if id >= self.tracks.len() {
            return Result::Err(Error::UnknownTrack);
        }
        if self.tracks[id].length() > usize::MAX - st {
            return Result::Err(Error::ShapeMismatch);
        }
        self.add_track_id(id, st)
    }

    /// The mixed waveform of channel `channel`: every scheduled copy of
    /// every track summed into a silent buffer, or absent when the channel
    /// index is out of range.
    pub fn waveform(&self, channel: u16) -> (r: Option<Vec<u32>>)
        requires
            self.wf(),
        ensures
            r is Some <==> channel < self.channels,
            r matches Some(w) ==> w@ == self.spec_mix(channel as int)
                && w@.len() == self.length as int,
        decreases self, 0int,
    {
        if channel >= self.channels {
            return None;
        }
        let ghost chi: int = channel as int;
        let ghost total: int = self.tracks@.len() as int;
        let ghost waves: Seq<Seq<u32>> = self.spec_waves(chi, total);
        let ghost startss: Seq<Seq<usize>> = self.spec_startss();
        proof {
            lemma_spec_waves_index(*self, chi, total);
        }
        let mut out = zero_codes(self.length);
        proof {
            assert(out@ =~= mix_waves(self.length as nat, waves, startss, 0));
        }
        let mut id: usize = 0;
        while id < self.tracks.len()
            invariant
                id <= self.tracks@.len(),
                out@ == mix_waves(self.length as nat, waves, startss, id as int),
                out@.len() == self.length as int,
            decreases self.tracks@.len() - id,
        {
            proof {
                assert(decreases_to!(*self => self.tracks));
                assert(decreases_to!(self.tracks => self.tracks[id as int]));
            }
            let tw_opt = self.tracks[id].waveform(channel);
            let tw = match tw_opt {
                Some(w) => w,
                None => {
                    return None;
                },
            };
            let ss: &Vec<usize> = &self.starts[id];
            let mut j: usize = 0;
            while j < ss.len()
                invariant
                    j <= ss@.len(),
                    out@ == mix_starts(mix_waves(self.length as nat, waves, startss, id as int), tw@, ss@, j as int),
                    out@.len() == self.length as int,
                decreases ss@.len() - j,
            {
                let st = ss[j];
                let ghost prev = out@;
                proof {
                    assert(st + tw@.len() <= self.length as int);
                }
                let mut t: usize = 0;
                while t < tw.len()
                    invariant
                        t <= tw@.len(),
                        out@.len() == prev.len(),
                        forall|u: int| 0 <= u < prev.len()
                            ==> out@[u] == (if st <= u && u < st + t as int {
                                add_codes(prev[u], tw@[u - st])
                            } else {
                                prev[u]
                            }),
                    decreases tw@.len() - t,
                {
                    let idx = st + t;
                    let v = add_code(out[idx], tw[t]);
                    out[idx] = v;
                    t = t + 1;
                }
                proof {
                    assert(out@ =~= mix_add(prev, tw@, st as int));
                }
                j = j + 1;
            }
            proof {
                assert(ss@ == startss[id as int]);
                assert(tw@ == waves[id as int]);
                assert(out@ == mix_waves(self.length as nat, waves, startss, id as int + 1));
            }
            id = id + 1;
        }
        Some(out)
    }
}

/// A buffer of `n` zero codes: silence of length `n`.
pub(crate) fn zero_codes(n: usize) -> (r: Vec<u32>)
    ensures
        r@ == Seq::new(n as nat, |t: int| CODE_ZERO),
{
    let mut out: Vec<u32> = Vec::new();
    let mut i: usize = 0;
    while i < n
        invariant
            i <= n,
            out@.len() == i as int,
            forall|k: int| 0 <= k < i as int ==> out@[k] == CODE_ZERO,
        decreases n - i,
    {
        out.push(CODE_ZERO);
        i = i + 1;
    }
    proof {
        assert(out@ =~= Seq::new(n as nat, |t: int| CODE_ZERO));
    }
    out
}

/// An element-wise copy of a code buffer.
pub(crate) fn copy_codes(v: &Vec<u32>) -> (r: Vec<u32>)
    ensures
        r@ == v@,
{
    let mut out: Vec<u32> = Vec::new();
    let mut i: usize = 0;
    while i < v.len()
        invariant
            i <= v.len(),
            out@.len() == i as int,
            forall|k: int| 0 <= k < i as int ==> out@[k] == v@[k],
        decreases v.len() - i,
    {
        out.push(v[i]);
        i = i + 1;
    }
    proof {
        assert(out@ =~= v@);
    }
    out
}

/// An element-wise copy of an offset buffer.
pub(crate) fn copy_usizes(v: &Vec<usize>) -> (r: Vec<usize>)
    ensures
        r@ == v@,
{
    let mut out: Vec<usize> = Vec::new();
    let mut i: usize = 0;
    while i < v.len()
        invariant
            i <= v.len(),
            out@.len() == i as int,
            forall|k: int| 0 <= k < i as int ==> out@[k] == v@[k],
        decreases v.len() - i,
    {
        out.push(v[i]);
        i = i + 1;
    }
    proof {
        assert(out@ =~= v@);
    }
    out
}

} // verus!
