//! Import from compressed audio: MP3 frames are decoded by `minimp3` and
//! accumulated, frame by frame, into one mono buffer per channel.
//!
//! The decoder is called through trusted wrappers; everything that follows a
//! decoded frame — consistency checks across frames, normalization of the
//! integer samples to the range [-1, 1], and round-robin de-interleaving —
//! is verified logic with an exact contract ([`accumulate_frame`]).

use vstd::prelude::*;

use crate::codes::{code_of_i64, div_codes, div_code, i64_to_code};
use crate::error::Error;
use crate::sample::{MultiChannel, Sample, WaveForm};

verus! {

#[verifier::external_type_specification]
#[verifier::external_body]
#[verifier::reject_recursive_types(R)]
pub struct ExDecoder<R>(minimp3::Decoder<R>);

#[verifier::external_type_specification]
#[verifier::external_body]
#[verifier::reject_recursive_types(T)]
pub struct ExCursor<T>(std::io::Cursor<T>);

/// Relies on `minimp3::Decoder::new`: wraps the byte source; no decoding
/// happens until a frame is requested.
#[verifier::external_body]
fn mp3_decoder_new(data: Vec<u8>) -> minimp3::Decoder<std::io::Cursor<Vec<u8>>> {
    minimp3::Decoder::new(std::io::Cursor::new(data))
}

/// Relies on `minimp3::Decoder::next_frame`: yields the next frame's
/// interleaved integer samples with its sample rate and channel count, or
/// the end of the stream, or a decoding failure. What comes back depends on
/// the decoder's internal state, so nothing is promised of the values; a
/// failure is always reported as an external one (the body maps every
/// decoder error to that kind).
#[verifier::external_body]
fn mp3_next_frame(dec: &mut minimp3::Decoder<std::io::Cursor<Vec<u8>>>) -> (r: Result<
    Option<(Vec<i16>, i32, usize)>,
    Error,
>)
    ensures
        r is Err ==> r->Err_0 == Error::ExternalIO,
{
    match dec.next_frame() {
        Ok(minimp3::Frame { data, sample_rate, channels, .. }) => Ok(
            Some((data, sample_rate, channels)),
        ),
        Err(minimp3::Error::Eof) => Ok(None),
        Err(_) => Err(Error::ExternalIO),
    }
}

/// The bit pattern of the binary32 value 32767.0, the largest `i16`.
pub const CODE_I16_MAX: u32 = 0x46FF_FE00;

/// A decoded integer sample normalized to [-1, 1]: the sample divided by
/// the largest `i16`, both taken to binary32.
pub open spec fn norm_code(s: i16) -> u32 {
    div_codes(code_of_i64(s as i64), CODE_I16_MAX)
}

/// Normalizes one decoded integer sample.
fn normalize(s: i16) -> (r: u32)
    ensures
        r == norm_code(s),
{
    div_code(i64_to_code(s as i64), CODE_I16_MAX)
}

/// Folds one decoded frame into the per-channel buffers.
///
/// The first frame fixes the channel count (it allocates the buffers) and
/// every frame fixes the sample rate for the frames after it; a frame that
/// disagrees with either is format drift. A frame whose shape cannot be
/// de-interleaved — no channels, more channels than a sample can hold, or
/// data that does not divide into whole frames — is rejected. On success
/// every channel buffer grows by the frame's samples for that channel,
/// normalized to [-1, 1].
pub fn accumulate_frame(
    waveforms: &mut Vec<Vec<u32>>,
    rate: &mut i32,
    data: &Vec<i16>,
    sample_rate: i32,
    channels: usize,
) -> (r: Result<(), Error>)
    ensures
        ({
            let rate_drift = *old(rate) != 0 && sample_rate != *old(rate);
            let chan_drift = old(waveforms)@.len() > 0 && channels as int != old(waveforms)@.len();
            let bad_shape = channels == 0 || channels > 0xFFFF || data@.len() as int % (
            channels as int) != 0;
            &&& (r is Err <==> (rate_drift || chan_drift || bad_shape))
            &&& (rate_drift ==> r == Result::<(), Error>::Err(Error::FormatDrift))
            &&& (!rate_drift && chan_drift ==> r == Result::<(), Error>::Err(Error::FormatDrift))
            &&& (!rate_drift && !chan_drift && bad_shape ==> r == Result::<(), Error>::Err(
                Error::ExternalIO,
            ))
            &&& (r is Err ==> final(waveforms)@ == old(waveforms)@ && *final(rate) == *old(rate))
            &&& (r is Ok ==> {
                let n = data@.len() as int / channels as int;
                &&& *final(rate) == sample_rate
                &&& final(waveforms)@.len() == channels as int
                &&& (forall|c: int| 0 <= c < channels as int
                    ==> (#[trigger] final(waveforms)@[c])@ == (if old(waveforms)@.len() == 0 {
                        Seq::<u32>::empty()
                    } else {
                        old(waveforms)@[c]@
                    }) + Seq::new(n as nat, |t: int| norm_code(data@[t * channels as int + c])))
            })
        }),
{
    if *rate != 0 && sample_rate != *rate {
        return Result::Err(Error::FormatDrift);
    }
    if waveforms.len() > 0 && channels != waveforms.len() {
        return Result::Err(Error::FormatDrift);
    }
    if channels == 0 || channels > 0xFFFF {
        return Result::Err(Error::ExternalIO);
    }
    if data.len() % channels != 0 {
        return Result::Err(Error::ExternalIO);
    }
    let n = data.len() / channels;
    proof {
        assert(n as int * channels as int == data@.len()) by (nonlinear_arith)
            requires
                channels as int > 0,
                data@.len() as int % (channels as int) == 0,
                n as int == data@.len() as int / channels as int,
        ;
    }
    let first = waveforms.len() == 0;
    let mut grown: Vec<Vec<u32>> = Vec::new();
    let mut c: usize = 0;
    while c < channels
        invariant
            c <= channels,
            grown@.len() == c as int,
            forall|q: int| 0 <= q < c as int ==> (#[trigger] grown@[q])@ == (if first {
                Seq::<u32>::empty()
            } else {
                old(waveforms)@[q]@
            }) + Seq::new(n as nat, |t: int| norm_code(data@[t * channels as int + q])),
        decreases channels - c,
    {
        let mut row: Vec<u32> = if first {
            Vec::new()
        } else {
            crate::sample::copy_codes(&waveforms[c])
        };
        let ghost base: Seq<u32> = row@;
        let mut t: usize = 0;
        while t < n
            invariant
                t <= n,
                c < channels,
                row@.len() == base.len() + t as int,
                forall|q: int| 0 <= q < base.len() ==> row@[q] == base[q],
                forall|q: int| 0 <= q < t as int ==> #[trigger] row@[base.len() + q] == norm_code(
                    data@[q * channels as int + c as int],
                ),
            decreases n - t,
        {
            proof {
                assert(t as int * channels as int + (c as int) < data@.len()) by (nonlinear_arith)
                    requires
                        0 <= t < n,
                        0 <= c < channels,
                        n as int * channels as int == data@.len(),
                ;
            }
            row.push(normalize(data[t * channels + c]));
            t = t + 1;
        }
        proof {
            let tail = Seq::new(n as nat, |t: int| norm_code(data@[t * channels as int + c as int]));
            assert forall|i: int| 0 <= i < row@.len() implies row@[i] == (base + tail)[i] by {
                if i >= base.len() {
                    assert(row@[base.len() + (i - base.len())] == norm_code(
                        data@[(i - base.len()) * channels as int + c as int],
                    ));
                }
            }
            assert(row@ =~= base + tail);
        }
        grown.push(row);
        c = c + 1;
    }
    *rate = sample_rate;
    *waveforms = grown;
    Result::Ok(())
}

impl MultiChannel {
    /// Materializes a multi-channel sample from the bytes of an MP3 stream:
    /// frames are decoded in order and accumulated per channel; a stream
    /// whose sample rate or channel count changes mid-way fails with format
    /// drift, and a stream that yields no frames — the empty input always
    /// among them — or that the decoder rejects, fails as an external
    /// failure.
    pub fn from_mp3(data: &Vec<u8>) -> (r: Result<MultiChannel, Error>)
        ensures
            r matches Ok(m) ==> m.wf() && m.channels@.len() >= 1,
            data@.len() == 0 ==> r == Result::<MultiChannel, Error>::Err(Error::ExternalIO),
            r is Err ==> r->Err_0 == Error::ExternalIO || r->Err_0 == Error::FormatDrift,
    {
        let mut bytes: Vec<u8> = Vec::new();
        let mut i: usize = 0;
        while i < data.len()
            invariant
                i <= data.len(),
                bytes@ == data@.subrange(0, i as int),
            decreases data.len() - i,
        {
            bytes.push(data[i]);
            i = i + 1;
        }
        proof {
            assert(bytes@ =~= data@);
        }
        let mut dec = mp3_decoder_new(bytes);
        let mut waveforms: Vec<Vec<u32>> = Vec::new();
        let mut rate: i32 = 0;
        let mut fuel: usize = data.len();
        let mut done = false;
        while fuel > 0 && !done
            invariant
                fuel <= data@.len(),
                data@.len() == 0 ==> !done,
                waveforms@.len() <= 0xFFFF,
                forall|a: int, b: int|
                    0 <= a < waveforms@.len() && 0 <= b < waveforms@.len()
                        ==> (#[trigger] waveforms@[a])@.len() == (#[trigger] waveforms@[b])@.len(),
            decreases fuel,
        {
            match mp3_next_frame(&mut dec) {
                Result::Err(e) => {
                    return Result::Err(e);
                },
                Result::Ok(None) => {
                    done = true;
                },
                Result::Ok(Some((frame, sample_rate, channels))) => {
                    match accumulate_frame(&mut waveforms, &mut rate, &frame, sample_rate, channels)
                    {
                        Result::Ok(u) => u,
                        Result::Err(e) => {
                            return Result::Err(e);
                        },
                    };
                },
            }
            fuel = fuel - 1;
        }
        if !done || waveforms.len() == 0 {
            return Result::Err(Error::ExternalIO);
        }
        let out_rate: u32 = #[verifier::truncate] (rate as u32);
        let length = waveforms[0].len();
        let mut parts: Vec<Sample> = Vec::new();
        let mut c: usize = 0;
        while c < waveforms.len()
            invariant
                c <= waveforms@.len(),
                0 < waveforms@.len() <= 0xFFFF,
                parts@.len() == c as int,
                forall|a: int, b: int|
                    0 <= a < waveforms@.len() && 0 <= b < waveforms@.len()
                        ==> (#[trigger] waveforms@[a])@.len() == (#[trigger] waveforms@[b])@.len(),
                length as int == waveforms@[0]@.len(),
                forall|q: int| 0 <= q < c as int ==> {
                    let piece = #[trigger] parts@[q];
                    &&& piece.wf()
                    &&& piece.spec_channels() == 1
                    &&& piece.spec_rate() == out_rate
                    &&& piece.spec_len() == length as int
                },
            decreases waveforms@.len() - c,
        {
            let row = crate::sample::copy_codes(&waveforms[c]);
            let piece = Sample::Wave(WaveForm { sample_rate: out_rate, samples: row });
            parts.push(piece);
            c = c + 1;
        }
        let m = MultiChannel { sample_rate: out_rate, length, channels: parts };
        proof {
            assert(m.wf());
        }
        Result::Ok(m)
    }
}

} // verus!
