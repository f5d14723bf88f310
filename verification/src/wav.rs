//! The uncompressed-audio container codec: writing and reading WAV files
//! that carry 32-bit IEEE-float samples, over in-memory byte buffers.
//!
//! The container layout is byte-exact in the specs: a RIFF/WAVE header with
//! one `fmt ` chunk (format tag 3, IEEE float, 32 bits per sample) followed
//! by one `data` chunk of interleaved little-endian sample codes. The reader
//! also accepts the WAVEFORMATEXTENSIBLE form of the same format and skips
//! unrelated chunks. [`lemma_wav_round_trip`] proves that reading back a
//! written container returns exactly the written channel count, sample rate,
//! and sample codes.

use vstd::prelude::*;

use crate::error::Error;
use crate::sample::{lemma_waveform_len, MultiChannel, Sample, WaveForm};

verus! {

/// The `k`-th little-endian byte of a 32-bit value, `k` in `0..4`.
pub open spec fn le_byte32(v: u32, k: int) -> u8 {
    if k == 0 {
        (v as int % 256) as u8
    } else if k == 1 {
        ((v as int / 256) % 256) as u8
    } else if k == 2 {
        ((v as int / 65536) % 256) as u8
    } else {
        ((v as int / 16777216) % 256) as u8
    }
}

/// The `k`-th little-endian byte of a 16-bit value, `k` in `0..2`.
pub open spec fn le_byte16(v: u16, k: int) -> u8 {
    if k == 0 {
        (v as int % 256) as u8
    } else {
        ((v as int / 256) % 256) as u8
    }
}

/// The 32-bit value read little-endian at position `p` of `b`.
pub open spec fn rd32(b: Seq<u8>, p: int) -> u32 {
    (b[p] as int + 256 * (b[p + 1] as int) + 65536 * (b[p + 2] as int) + 16777216 * (b[p
        + 3] as int)) as u32
}

/// The 16-bit value read little-endian at position `p` of `b`.
pub open spec fn rd16(b: Seq<u8>, p: int) -> u16 {
    (b[p] as int + 256 * (b[p + 1] as int)) as u16
}

/// Reading back the four little-endian bytes of a value returns the value.
pub proof fn lemma_le32_round_trip(v: u32)
    ensures
        le_byte32(v, 0) as int + 256 * (le_byte32(v, 1) as int) + 65536 * (le_byte32(
            v,
            2,
        ) as int) + 16777216 * (le_byte32(v, 3) as int) == v as int,
{
    let n = v as int;
    assert(n % 256 + 256 * ((n / 256) % 256) + 65536 * ((n / 65536) % 256) + 16777216 * ((n
        / 16777216) % 256) == n) by (nonlinear_arith)
        requires
            0 <= n < 4294967296,
    ;
}

/// Reading back the two little-endian bytes of a value returns the value.
pub proof fn lemma_le16_round_trip(v: u16)
    ensures
        le_byte16(v, 0) as int + 256 * (le_byte16(v, 1) as int) == v as int,
{
    let n = v as int;
    assert(n % 256 + 256 * ((n / 256) % 256) == n) by (nonlinear_arith)
        requires
            0 <= n < 65536,
    ;
}

/// The 44-byte container header: RIFF/WAVE, a 16-byte `fmt ` chunk with
/// format tag 3 (IEEE float), and the `data` chunk header. `data_len` is the
/// byte length of the sample data; `byte_rate` and `block_align` are the
/// derived rate and frame-size fields.
pub open spec fn spec_wav_header(channels: u16, rate: u32, data_len: u32) -> Seq<u8> {
    let riff_len = (36 + data_len as int) as u32;
    let block_align = (4 * channels as int) as u16;
    let byte_rate = (4 * channels as int * rate as int) as u32;
    seq![
        0x52u8, 0x49u8, 0x46u8, 0x46u8,
        le_byte32(riff_len, 0), le_byte32(riff_len, 1), le_byte32(riff_len, 2), le_byte32(riff_len, 3),
        0x57u8, 0x41u8, 0x56u8, 0x45u8,
        0x66u8, 0x6Du8, 0x74u8, 0x20u8,
        16u8, 0u8, 0u8, 0u8,
        3u8, 0u8,
        le_byte16(channels, 0), le_byte16(channels, 1),
        le_byte32(rate, 0), le_byte32(rate, 1), le_byte32(rate, 2), le_byte32(rate, 3),
        le_byte32(byte_rate, 0), le_byte32(byte_rate, 1), le_byte32(byte_rate, 2), le_byte32(byte_rate, 3),
        le_byte16(block_align, 0), le_byte16(block_align, 1),
        32u8, 0u8,
        0x64u8, 0x61u8, 0x74u8, 0x61u8,
        le_byte32(data_len, 0), le_byte32(data_len, 1), le_byte32(data_len, 2), le_byte32(data_len, 3),
    ]
}

/// The `i`-th byte of the sample data: the `i % 4`-th little-endian byte of
/// the `i / 4`-th interleaved sample code.
pub open spec fn spec_data_byte(flat: Seq<u32>, i: int) -> u8 {
    le_byte32(flat[i / 4], i % 4)
}

/// The whole container: header followed by every sample code little-endian.
pub open spec fn spec_wav_bytes(channels: u16, rate: u32, flat: Seq<u32>) -> Seq<u8> {
    spec_wav_header(channels, rate, (4 * flat.len()) as u32) + Seq::new(
        (4 * flat.len()) as nat,
        |i: int| spec_data_byte(flat, i),
    )
}

/// The channels of a sample interleaved in time order: entry `j` is the
/// sample of channel `j % channels` at time step `j / channels`.
pub open spec fn spec_interleaved(s: Sample) -> Seq<u32> {
    Seq::new(
        (s.spec_channels() * s.spec_len()) as nat,
        |j: int| s.spec_waveform(j % s.spec_channels())[j / s.spec_channels()],
    )
}

/// Appends the two little-endian bytes of `v`.
fn push_le16(out: &mut Vec<u8>, v: u16)
    ensures
        final(out)@ == old(out)@.push(le_byte16(v, 0)).push(le_byte16(v, 1)),
{
    out.push((v % 256) as u8);
    out.push((v / 256) as u8);
}

/// Appends the four little-endian bytes of `v`.
fn push_le32(out: &mut Vec<u8>, v: u32)
    ensures
        final(out)@ == old(out)@.push(le_byte32(v, 0)).push(le_byte32(v, 1)).push(
            le_byte32(v, 2),
        ).push(le_byte32(v, 3)),
{
    out.push((v % 256) as u8);
    out.push((v / 256 % 256) as u8);
    out.push((v / 65536 % 256) as u8);
    out.push((v / 16777216) as u8);
}

/// Builds the 44-byte container header.
fn wav_header_bytes(ch: u16, rate: u32, byte_rate: u32, data_len: u32) -> (r: Vec<u8>)
    requires
        ch <= 0x3FFF,
        byte_rate as int == 4 * ch as int * rate as int,
        data_len <= u32::MAX - 36,
    ensures
        r@ == spec_wav_header(ch, rate, data_len),
{
    let mut out: Vec<u8> = Vec::new();
    out.push(0x52);
    out.push(0x49);
    out.push(0x46);
    out.push(0x46);
    push_le32(&mut out, 36 + data_len);
    out.push(0x57);
    out.push(0x41);
    out.push(0x56);
    out.push(0x45);
    out.push(0x66);
    out.push(0x6D);
    out.push(0x74);
    out.push(0x20);
    push_le32(&mut out, 16);
    push_le16(&mut out, 3);
    push_le16(&mut out, ch);
    push_le32(&mut out, rate);
    push_le32(&mut out, byte_rate);
    push_le16(&mut out, 4 * ch);
    push_le16(&mut out, 32);
    out.push(0x64);
    out.push(0x61);
    out.push(0x74);
    out.push(0x61);
    push_le32(&mut out, data_len);
    proof {
        assert(out@ =~= spec_wav_header(ch, rate, data_len));
    }
    out
}

impl Sample {
    /// Serializes this sample as a WAV container of 32-bit float samples:
    /// for each time step, each channel's code in channel order, little
    /// endian, behind the standard header.
    ///
    /// Fails exactly when the container limits are exceeded: more than
    /// 0x3FFF channels (the frame size field holds four bytes per channel),
    /// a byte rate above the 32-bit field, or sample data longer than the
    /// 32-bit data length field allows.
    #[verifier::rlimit(80)]
    pub fn export(&self) -> (r: Result<Vec<u8>, Error>)
        requires
            self.wf(),
        ensures
            r is Err <==> (self.spec_channels() > 0x3FFF || 4 * self.spec_channels()
                * self.spec_rate() as int > u32::MAX || 36 + 4 * self.spec_channels()
                * self.spec_len() > u32::MAX),
            r is Err ==> r->Err_0 == Error::ExternalIO,
            r matches Ok(b) ==> b@ == spec_wav_bytes(
                self.spec_channels() as u16,
                self.spec_rate(),
                spec_interleaved(*self),
            ),
    {
        let ch = self.channels();
        let rate = self.sample_rate();
        let len = self.length();
        if ch > 0x3FFF {
            return Result::Err(Error::ExternalIO);
        }
        if rate > 0 && (4 * ch as u32) > u32::MAX / rate {
            proof {
                assert(4 * self.spec_channels() * self.spec_rate() as int > u32::MAX)
                    by (nonlinear_arith)
                    requires
                        self.spec_channels() == ch as int,
                        self.spec_rate() == rate,
                        rate > 0,
                        4 * ch as int > u32::MAX as int / rate as int,
                ;
            }
            return Result::Err(Error::ExternalIO);
        }
        proof {
            assert(rate > 0 ==> 4 * ch as int <= u32::MAX as int / rate as int ==> 4 * ch as int
                * rate as int <= u32::MAX) by (nonlinear_arith);
            assert(rate == 0 ==> 4 * self.spec_channels() * self.spec_rate() as int == 0)
                by (nonlinear_arith)
                requires
                    self.spec_channels() == ch as int,
                    self.spec_rate() == rate,
            ;
        }
        let byte_rate: u32 = 4 * (ch as u32) * rate;
        if len > 0 && ch > 0 {
            if (ch as usize) > (usize::MAX - 36) / 4 / len {
                proof {
                    assert(36 + 4 * (ch as int) * (len as int) > usize::MAX) by (nonlinear_arith)
                        requires
                            len > 0,
                            ch as int > ((usize::MAX - 36) as int / 4) / len as int,
                    ;
                }
                return Result::Err(Error::ExternalIO);
            }
            proof {
                assert(36 + 4 * (ch as int) * (len as int) <= usize::MAX) by (nonlinear_arith)
                    requires
                        len > 0,
                        ch as int <= ((usize::MAX - 36) as int / 4) / len as int,
                ;
            }
        }
        proof {
            if len == 0 || ch == 0 {
                assert(4 * (ch as int) * (len as int) == 0) by (nonlinear_arith)
                    requires
                        ch as int == 0 || len as int == 0,
                ;
            }
            assert(36 + 4 * (ch as int) * (len as int) <= usize::MAX);
            assert((ch as int) * (len as int) <= usize::MAX / 4) by (nonlinear_arith)
                requires
                    (ch as int) * (len as int) >= 0,
                    4 * (ch as int) * (len as int) <= usize::MAX - 36,
            ;
        }
        let frames: usize = (ch as usize) * len;
        proof {
            assert(4 * (ch as int) * (len as int) == 4 * ((ch as int) * (len as int)))
                by (nonlinear_arith);
            assert((len as int) * (ch as int) == (ch as int) * (len as int)) by (nonlinear_arith);
        }
        let data_bytes: usize = 4 * frames;
        if data_bytes > (u32::MAX - 36) as usize {
            return Result::Err(Error::ExternalIO);
        }
        let data_len: u32 = data_bytes as u32;

        // Collect every channel once, then interleave: entry j of the flat
        // data is channel j % ch at time step j / ch.
        let ghost ilv: Seq<u32> = spec_interleaved(*self);
        let mut wave_data: Vec<Vec<u32>> = Vec::new();
        let mut cc: u16 = 0;
        while cc < ch
            invariant
                cc <= ch,
                wave_data@.len() == cc as int,
                forall|q: int| 0 <= q < cc as int ==> (#[trigger] wave_data@[q])@
                    == self.spec_waveform(q) && wave_data@[q]@.len() == len as int,
            decreases ch - cc,
        {
            let w = match self.waveform(cc) {
                Some(w) => w,
                None => {
                    return Result::Err(Error::ExternalIO);
                },
            };
            wave_data.push(w);
            cc = cc + 1;
        }
        let mut flat: Vec<u32> = Vec::new();
        let mut t: usize = 0;
        while t < len
            invariant
                t <= len,
                flat@.len() == t as int * ch as int,
                forall|j: int| 0 <= j < flat@.len() ==> flat@[j] == ilv[j],
            decreases len - t,
        {
            let mut c: u16 = 0;
            while c < ch
                invariant
                    c <= ch,
                    t < len,
                    flat@.len() == t as int * ch as int + c as int,
                    forall|j: int| 0 <= j < flat@.len() ==> flat@[j] == ilv[j],
                decreases ch - c,
            {
                let ghost j: int = t as int * ch as int + c as int;
                proof {
                    assert(j < ch as int * len as int) by (nonlinear_arith)
                        requires
                            j == t as int * ch as int + c as int,
                            0 <= t < len,
                            0 <= c < ch,
                    ;
                    assert(j % (ch as int) == c as int && j / (ch as int) == t as int)
                        by (nonlinear_arith)
                        requires
                            j == t as int * ch as int + c as int,
                            0 <= c < ch,
                            0 <= t,
                    ;
                }
                let row: &Vec<u32> = &wave_data[c as usize];
                flat.push(row[t]);
                c = c + 1;
            }
            proof {
                assert((t as int + 1) * ch as int == t as int * ch as int + ch as int)
                    by (nonlinear_arith);
            }
            t = t + 1;
        }
        proof {
            assert(flat@ =~= ilv);
        }

        let mut out: Vec<u8> = wav_header_bytes(ch, rate, byte_rate, data_len);
        let ghost header: Seq<u8> = out@;
        let mut i: usize = 0;
        while i < frames
            invariant
                i <= frames,
                out@.len() == 44 + 4 * i as int,
                header == spec_wav_header(ch, rate, data_len),
                out@.subrange(0, 44) == header,
                forall|p: int| 0 <= p < 4 * i as int ==> out@[44 + p] == spec_data_byte(flat@, p),
            decreases frames - i,
        {
            push_le32(&mut out, flat[i]);
            proof {
                assert(out@.subrange(0, 44) =~= header);
                assert forall|p: int| 4 * i as int <= p < 4 * (i + 1) as int
                    implies out@[44 + p] == spec_data_byte(flat@, p) by {
                    assert(p / 4 == i as int && (p == 4 * i as int + p % 4)) by (nonlinear_arith)
                        requires
                            4 * i as int <= p < 4 * i as int + 4,
                    ;
                }
            }
            i = i + 1;
        }
        proof {
            assert(out@ =~= spec_wav_bytes(ch, rate, flat@));
        }
        Result::Ok(out)
    }
}

/// Whether the sixteen bytes at `p` are the subformat identifier of IEEE
/// float audio in an extensible format chunk.
pub open spec fn spec_is_float_guid(b: Seq<u8>, p: int) -> bool {
    &&& b[p] == 0x03u8
    &&& b[p + 1] == 0x00u8
    &&& b[p + 2] == 0x00u8
    &&& b[p + 3] == 0x00u8
    &&& b[p + 4] == 0x00u8
    &&& b[p + 5] == 0x00u8
    &&& b[p + 6] == 0x10u8
    &&& b[p + 7] == 0x00u8
    &&& b[p + 8] == 0x80u8
    &&& b[p + 9] == 0x00u8
    &&& b[p + 10] == 0x00u8
    &&& b[p + 11] == 0xAAu8
    &&& b[p + 12] == 0x00u8
    &&& b[p + 13] == 0x38u8
    &&& b[p + 14] == 0x9Bu8
    &&& b[p + 15] == 0x71u8
}

/// A parsed format chunk whose body lies at `pos` with byte length `len`:
/// the channel count and sample rate when the chunk describes a stream of
/// 32-bit IEEE-float frames (plain tag or the extensible form), or nothing.
pub open spec fn spec_parse_fmt(b: Seq<u8>, pos: int, len: int) -> Option<(u16, u32)> {
    if len < 16 {
        Option::None
    } else {
        let tag = rd16(b, pos);
        let ch = rd16(b, pos + 2);
        let rate = rd32(b, pos + 4);
        let byte_rate = rd32(b, pos + 8);
        let block_align = rd16(b, pos + 12);
        let bits = rd16(b, pos + 14);
        if ch == 0 || bits != 32 || block_align as int != 4 * ch as int || byte_rate as int
            != block_align as int * rate as int {
            Option::None
        } else if tag == 3 && (len == 16 || (len == 18 && rd16(b, pos + 16) == 0)) {
            Option::Some((ch, rate))
        } else if tag == 0xFFFE && len == 40 && rd16(b, pos + 16) == 22 && (rd16(b, pos + 18) == 32
            || rd16(b, pos + 18) == 0) && spec_is_float_guid(b, pos + 24) {
            Option::Some((ch, rate))
        } else {
            Option::None
        }
    }
}

/// The chunk scan: starting at `pos`, chunks are walked in order; a format
/// chunk records the stream shape, unrelated chunks are skipped, and the
/// first data chunk yields the result — the recorded channel count and rate
/// with the data decoded as little-endian 32-bit codes. Nothing is yielded
/// when a chunk is truncated, a format chunk is invalid, the data chunk
/// comes before a format chunk, or the data length does not divide into
/// whole frames.
pub open spec fn spec_scan(b: Seq<u8>, pos: int, fmt: Option<(u16, u32)>) -> Option<
    (u16, u32, Seq<u32>),
>
    decreases b.len() - pos,
{
    if pos < 0 || pos + 8 > b.len() {
        Option::None
    } else {
        let len = rd32(b, pos + 4) as int;
        if b[pos] == 0x64u8 && b[pos + 1] == 0x61u8 && b[pos + 2] == 0x74u8 && b[pos + 3]
            == 0x61u8 {
            match fmt {
                Option::Some((ch, rate)) => {
                    if pos + 8 + len <= b.len() && len % 4 == 0 && (len / 4) % (ch as int) == 0 {
                        Option::Some(
                            (ch, rate, Seq::new((len / 4) as nat, |j: int| rd32(b, pos + 8 + 4 * j))),
                        )
                    } else {
                        Option::None
                    }
                },
                Option::None => Option::None,
            }
        } else if b[pos] == 0x66u8 && b[pos + 1] == 0x6Du8 && b[pos + 2] == 0x74u8 && b[pos + 3]
            == 0x20u8 {
            if pos + 8 + len <= b.len() {
                match spec_parse_fmt(b, pos + 8, len) {
                    Option::Some(f) => spec_scan(b, pos + 8 + len, Option::Some(f)),
                    Option::None => Option::None,
                }
            } else {
                Option::None
            }
        } else {
            if pos + 8 + len <= b.len() {
                spec_scan(b, pos + 8 + len, fmt)
            } else {
                Option::None
            }
        }
    }
}

/// A parsed container: the channel count, sample rate, and interleaved
/// sample codes of a RIFF/WAVE file of 32-bit IEEE-float samples, or
/// nothing when the bytes are not such a container.
pub open spec fn spec_parse_wav(b: Seq<u8>) -> Option<(u16, u32, Seq<u32>)> {
    if b.len() >= 12 && b[0] == 0x52u8 && b[1] == 0x49u8 && b[2] == 0x46u8 && b[3] == 0x46u8 && b[8]
        == 0x57u8 && b[9] == 0x41u8 && b[10] == 0x56u8 && b[11] == 0x45u8 {
        spec_scan(b, 12, Option::None)
    } else {
        Option::None
    }
}

/// Reads the 16-bit little-endian value at `p`.
fn read16(b: &Vec<u8>, p: usize) -> (r: u16)
    requires
        p + 2 <= b@.len() <= usize::MAX,
    ensures
        r == rd16(b@, p as int),
{
    b[p] as u16 + 256 * (b[p + 1] as u16)
}

/// Reads the 32-bit little-endian value at `p`.
fn read32(b: &Vec<u8>, p: usize) -> (r: u32)
    requires
        p + 4 <= b@.len() <= usize::MAX,
    ensures
        r == rd32(b@, p as int),
{
    b[p] as u32 + 256 * (b[p + 1] as u32) + 65536 * (b[p + 2] as u32) + 16777216 * (b[p
        + 3] as u32)
}

/// Parses a format chunk body at `pos` of byte length `len`.
fn parse_fmt(b: &Vec<u8>, pos: usize, len: usize) -> (r: Option<(u16, u32)>)
    requires
        pos + len <= b@.len() <= usize::MAX,
    ensures
        r == spec_parse_fmt(b@, pos as int, len as int),
{
    if len < 16 {
        return Option::None;
    }
    let tag = read16(b, pos);
    let ch = read16(b, pos + 2);
    let rate = read32(b, pos + 4);
    let byte_rate = read32(b, pos + 8);
    let block_align = read16(b, pos + 12);
    let bits = read16(b, pos + 14);
    proof {
        assert(block_align as int * rate as int <= 0xFFFFint * 0xFFFF_FFFFint) by (nonlinear_arith)
            requires
                0 <= block_align as int <= 0xFFFF,
                0 <= rate as int <= 0xFFFF_FFFF,
        ;
    }
    if ch == 0 || bits != 32 || block_align as usize != 4 * ch as usize || byte_rate as u64
        != block_align as u64 * rate as u64 {
        proof {
            assert(byte_rate as u64 == block_align as u64 * rate as u64 <==> byte_rate as int
                == block_align as int * rate as int) by (nonlinear_arith);
        }
        return Option::None;
    }
    proof {
        assert(byte_rate as int == block_align as int * rate as int) by (nonlinear_arith)
            requires
                byte_rate as u64 == block_align as u64 * rate as u64,
        ;
    }
    if tag == 3 && (len == 16 || (len == 18 && read16(b, pos + 16) == 0)) {
        return Option::Some((ch, rate));
    }
    if tag == 0xFFFE && len == 40 && read16(b, pos + 16) == 22 && {
        let vb = read16(b, pos + 18);
        vb == 32 || vb == 0
    } && b[pos + 24] == 0x03 && b[pos + 25] == 0x00 && b[pos + 26] == 0x00 && b[pos + 27] == 0x00
        && b[pos + 28] == 0x00 && b[pos + 29] == 0x00 && b[pos + 30] == 0x10 && b[pos + 31] == 0x00
        && b[pos + 32] == 0x80 && b[pos + 33] == 0x00 && b[pos + 34] == 0x00 && b[pos + 35] == 0xAA
        && b[pos + 36] == 0x00 && b[pos + 37] == 0x38 && b[pos + 38] == 0x9B && b[pos + 39]
        == 0x71 {
        return Option::Some((ch, rate));
    }
    Option::None
}

/// Parses a WAV container of 32-bit IEEE-float samples into its channel
/// count, sample rate, and interleaved sample codes. Fails exactly when the
/// bytes are not such a container.
pub fn parse_wav(b: &Vec<u8>) -> (r: Result<(u16, u32, Vec<u32>), Error>)
    ensures
        r is Ok <==> spec_parse_wav(b@) is Some,
        r is Err ==> r->Err_0 == Error::ExternalIO,
        r matches Ok((ch, rate, flat)) ==> spec_parse_wav(b@) == Option::Some(
            (ch, rate, flat@),
        ),
{
    if b.len() < 12 {
        return Result::Err(Error::ExternalIO);
    }
    if !(b[0] == 0x52 && b[1] == 0x49 && b[2] == 0x46 && b[3] == 0x46 && b[8] == 0x57 && b[9]
        == 0x41 && b[10] == 0x56 && b[11] == 0x45) {
        return Result::Err(Error::ExternalIO);
    }
    let mut pos: usize = 12;
    let mut fmt: Option<(u16, u32)> = Option::None;
    loop
        invariant
            12 <= pos <= b@.len() + 8,
            spec_parse_wav(b@) == spec_scan(b@, pos as int, fmt),
            fmt matches Option::Some((c, _)) ==> c != 0,
        decreases b@.len() + 8 - pos,
    {
        if pos > b.len() || b.len() - pos < 8 {
            return Result::Err(Error::ExternalIO);
        }
        let len32 = read32(b, pos + 4);
        let len = len32 as usize;
        if b[pos] == 0x64 && b[pos + 1] == 0x61 && b[pos + 2] == 0x74 && b[pos + 3] == 0x61 {
            let (ch, rate) = match fmt {
                Option::Some(f) => f,
                Option::None => {
                    return Result::Err(Error::ExternalIO);
                },
            };
            if len > b.len() - pos - 8 {
                return Result::Err(Error::ExternalIO);
            }
            if len % 4 != 0 {
                return Result::Err(Error::ExternalIO);
            }
            let n = len / 4;
            if n % (ch as usize) != 0 {
                return Result::Err(Error::ExternalIO);
            }
            let base = pos + 8;
            let mut flat: Vec<u32> = Vec::new();
            let mut j: usize = 0;
            while j < n
                invariant
                    j <= n,
                    base + 4 * n <= b@.len(),
                    flat@.len() == j as int,
                    forall|q: int| 0 <= q < j as int ==> flat@[q] == rd32(b@, base + 4 * q),
                decreases n - j,
            {
                flat.push(read32(b, base + 4 * j));
                j = j + 1;
            }
            proof {
                assert(flat@ =~= Seq::new(
                    (len as int / 4) as nat,
                    |q: int| rd32(b@, pos as int + 8 + 4 * q),
                ));
            }
            return Result::Ok((ch, rate, flat));
        } else if b[pos] == 0x66 && b[pos + 1] == 0x6D && b[pos + 2] == 0x74 && b[pos + 3] == 0x20 {
            if len > b.len() - pos - 8 {
                return Result::Err(Error::ExternalIO);
            }
            let parsed = parse_fmt(b, pos + 8, len);
            match parsed {
                Option::Some(f) => {
                    fmt = Option::Some(f);
                    pos = pos + 8 + len;
                },
                Option::None => {
                    return Result::Err(Error::ExternalIO);
                },
            }
        } else {
            if len > b.len() - pos - 8 {
                return Result::Err(Error::ExternalIO);
            }
            pos = pos + 8 + len;
        }
    }
}

impl MultiChannel {
    /// De-interleaves `flat` round-robin into `channels` stored buffers at
    /// the given rate: channel `c` holds the samples at positions
    /// `t*channels + c`. Fails with a shape mismatch exactly when the
    /// channel count is zero or the data does not divide into whole frames.
    pub fn from_interleaved(channels: u16, rate: u32, flat: &Vec<u32>) -> (r: Result<
        MultiChannel,
        Error,
    >)
        ensures
            r is Err <==> (channels == 0 || flat@.len() as int % (channels as int) != 0),
            r is Err ==> r->Err_0 == Error::ShapeMismatch,
            r matches Ok(m) ==> {
                &&& m.wf()
                &&& m.sample_rate == rate
                &&& m.channels@.len() == channels as int
                &&& m.length as int == flat@.len() as int / (channels as int)
                &&& forall|c: int| 0 <= c < channels as int
                    ==> (#[trigger] m.channels@[c].spec_waveform(0)) == Seq::new(
                        (flat@.len() as int / (channels as int)) as nat,
                        |t: int| flat@[t * (channels as int) + c],
                    )
            },
    {
        if channels == 0 {
            return Result::Err(Error::ShapeMismatch);
        }
        if flat.len() % (channels as usize) != 0 {
            return Result::Err(Error::ShapeMismatch);
        }
        let len = flat.len() / (channels as usize);
        proof {
            assert(len as int * channels as int == flat@.len()) by (nonlinear_arith)
                requires
                    channels as int > 0,
                    flat@.len() as int % (channels as int) == 0,
                    len as int == flat@.len() as int / (channels as int),
            ;
        }
        let mut parts: Vec<Sample> = Vec::new();
        let mut c: u16 = 0;
        while c < channels
            invariant
                c <= channels,
                parts@.len() == c as int,
                forall|q: int| 0 <= q < c as int ==> {
                    let piece = #[trigger] parts@[q];
                    &&& piece.wf()
                    &&& piece.spec_channels() == 1
                    &&& piece.spec_rate() == rate
                    &&& piece.spec_len() == len as int
                    &&& piece.spec_waveform(0) == Seq::new(
                        len as nat,
                        |t: int| flat@[t * (channels as int) + q],
                    )
                },
            decreases channels - c,
        {
            let mut buf: Vec<u32> = Vec::new();
            let mut t: usize = 0;
            while t < len
                invariant
                    t <= len,
                    c < channels,
                    buf@.len() == t as int,
                    forall|q: int| 0 <= q < t as int ==> buf@[q] == flat@[q * (channels as int)
                        + c as int],
                decreases len - t,
            {
                proof {
                    assert(t as int * channels as int + (c as int) < flat@.len())
                        by (nonlinear_arith)
                        requires
                            0 <= t < len,
                            0 <= c < channels,
                            len as int * channels as int == flat@.len(),
                    ;
                }
                buf.push(flat[t * (channels as usize) + (c as usize)]);
                t = t + 1;
            }
            let piece = Sample::Wave(WaveForm { sample_rate: rate, samples: buf });
            proof {
                assert(piece.spec_waveform(0) =~= Seq::new(
                    len as nat,
                    |t: int| flat@[t * (channels as int) + c as int],
                ));
            }
            parts.push(piece);
            c = c + 1;
        }
        let m = MultiChannel { sample_rate: rate, length: len, channels: parts };
        proof {
            assert(m.wf());
        }
        Result::Ok(m)
    }

    /// Materializes a multi-channel sample from the bytes of a WAV container
    /// of 32-bit IEEE-float samples: the header's channel count and rate are
    /// adopted and the data is de-interleaved round-robin. Fails exactly
    /// when the bytes do not parse as such a container.
    pub fn from_wav(data: &Vec<u8>) -> (r: Result<MultiChannel, Error>)
        ensures
            r is Ok <==> spec_parse_wav(data@) is Some,
            r is Err ==> r->Err_0 == Error::ExternalIO,
            r matches Ok(m) ==> {
                let (ch, rate, flat) = spec_parse_wav(data@)->Some_0;
                &&& m.wf()
                &&& m.sample_rate == rate
                &&& m.channels@.len() == ch as int
                &&& m.length as int == flat.len() as int / (ch as int)
                &&& forall|c: int| 0 <= c < ch as int
                    ==> (#[trigger] m.channels@[c].spec_waveform(0)) == Seq::new(
                        (flat.len() as int / (ch as int)) as nat,
                        |t: int| flat[t * (ch as int) + c],
                    )
            },
    {
        let (ch, rate, flat) = match parse_wav(data) {
            Result::Ok(p) => p,
            Result::Err(e) => {
                return Result::Err(e);
            },
        };
        proof {
            lemma_scan_shape(data@, 12, Option::None);
        }
        match MultiChannel::from_interleaved(ch, rate, &flat) {
            Result::Ok(m) => Result::Ok(m),
            Result::Err(_) => Result::Err(Error::ExternalIO),
        }
    }
}

/// A successful scan names a nonzero channel count that divides the sample
/// data into whole frames.
pub proof fn lemma_scan_shape(b: Seq<u8>, pos: int, fmt: Option<(u16, u32)>)
    requires
        spec_scan(b, pos, fmt) is Some,
        fmt matches Option::Some(f) ==> f.0 != 0,
    ensures
        ({
            let (ch, rate, flat) = spec_scan(b, pos, fmt)->Some_0;
            ch != 0 && flat.len() as int % (ch as int) == 0
        }),
    decreases b.len() - pos,
{
    let len = rd32(b, pos + 4) as int;
    if b[pos] == 0x64u8 && b[pos + 1] == 0x61u8 && b[pos + 2] == 0x74u8 && b[pos + 3] == 0x61u8 {
    } else if b[pos] == 0x66u8 && b[pos + 1] == 0x6Du8 && b[pos + 2] == 0x74u8 && b[pos + 3]
        == 0x20u8 {
        lemma_scan_shape(b, pos + 8 + len, Option::Some(spec_parse_fmt(b, pos + 8, len)->Some_0));
    } else {
        lemma_scan_shape(b, pos + 8 + len, fmt);
    }
}

/// Round trip at the byte level: parsing the container written for a given
/// channel count, rate, and interleaved sample codes returns exactly those.
/// The header fields read back as written.
#[verifier::rlimit(100)]
#[verifier::spinoff_prover]
pub proof fn lemma_header_fields(channels: u16, rate: u32, data_len: u32)
    requires
        channels <= 0x3FFF,
        4 * channels as int * rate as int <= u32::MAX,
    ensures
        ({
            let h = spec_wav_header(channels, rate, data_len);
            &&& h.len() == 44
            &&& h[0] == 0x52u8 && h[1] == 0x49u8 && h[2] == 0x46u8 && h[3] == 0x46u8
            &&& h[8] == 0x57u8 && h[9] == 0x41u8 && h[10] == 0x56u8 && h[11] == 0x45u8
            &&& h[12] == 0x66u8 && h[13] == 0x6Du8 && h[14] == 0x74u8 && h[15] == 0x20u8
            &&& rd32(h, 16) == 16
            &&& rd16(h, 20) == 3
            &&& rd16(h, 22) == channels
            &&& rd32(h, 24) == rate
            &&& rd32(h, 28) as int == 4 * channels as int * rate as int
            &&& rd16(h, 32) as int == 4 * channels as int
            &&& rd16(h, 34) == 32
            &&& h[36] == 0x64u8 && h[37] == 0x61u8 && h[38] == 0x74u8 && h[39] == 0x61u8
            &&& rd32(h, 40) == data_len
        }),
{
    let h = spec_wav_header(channels, rate, data_len);
    let block_align = (4 * channels as int) as u16;
    let byte_rate = (4 * channels as int * rate as int) as u32;
    lemma_le16_round_trip(channels);
    lemma_le16_round_trip(block_align);
    lemma_le32_round_trip(rate);
    lemma_le32_round_trip(byte_rate);
    lemma_le32_round_trip(data_len);
}

/// Round trip at the byte level: parsing the container written for a given
/// channel count, rate, and interleaved sample codes returns exactly those.
#[verifier::rlimit(100)]
#[verifier::spinoff_prover]
pub proof fn lemma_wav_round_trip(channels: u16, rate: u32, flat: Seq<u32>)
    requires
        1 <= channels <= 0x3FFF,
        4 * channels as int * rate as int <= u32::MAX,
        36 + 4 * flat.len() <= u32::MAX,
        flat.len() as int % (channels as int) == 0,
    ensures
        spec_parse_wav(spec_wav_bytes(channels, rate, flat)) == Option::Some(
            (channels, rate, flat),
        ),
{
    reveal_with_fuel(spec_scan, 3);
    let dl = (4 * flat.len()) as u32;
    let h = spec_wav_header(channels, rate, dl);
    let d = Seq::new((4 * flat.len()) as nat, |i: int| spec_data_byte(flat, i));
    let b = spec_wav_bytes(channels, rate, flat);
    lemma_header_fields(channels, rate, dl);
    assert(b == h + d);
    assert(b.len() == 44 + 4 * flat.len());
    assert forall|i: int| 0 <= i < 44 implies b[i] == h[i] by {}
    assert(rd32(b, 16) == rd32(h, 16) && rd16(b, 20) == rd16(h, 20) && rd16(b, 22) == rd16(h, 22)
        && rd32(b, 24) == rd32(h, 24) && rd32(b, 28) == rd32(h, 28) && rd16(b, 32) == rd16(h, 32)
        && rd16(b, 34) == rd16(h, 34) && rd32(b, 40) == rd32(h, 40));

    let block_align = (4 * channels as int) as u16;
    let byte_rate = (4 * channels as int * rate as int) as u32;
    assert(byte_rate as int == block_align as int * rate as int) by (nonlinear_arith)
        requires
            byte_rate as int == 4 * channels as int * rate as int,
            block_align as int == 4 * channels as int,
    ;
    assert(spec_parse_fmt(b, 20, 16) == Option::Some((channels, rate)));

    // The data chunk at offset 36 yields the sample codes.
    assert(dl as int % 4 == 0);
    assert((dl as int / 4) % (channels as int) == 0);
    let decoded = Seq::new((dl as int / 4) as nat, |j: int| rd32(b, 36 + 8 + 4 * j));
    assert forall|j: int| 0 <= j < flat.len() implies decoded[j] == flat[j] by {
        assert forall|k: int| 0 <= k < 4 implies b[44 + 4 * j + k] == le_byte32(flat[j], k) by {
            assert((4 * j + k) / 4 == j && (4 * j + k) % 4 == k) by (nonlinear_arith)
                requires
                    0 <= k < 4,
                    0 <= j,
            ;
            assert(d[4 * j + k] == le_byte32(flat[j], k));
        }
        lemma_le32_round_trip(flat[j]);
        assert(decoded[j] == rd32(b, 44 + 4 * j));
    }
    assert(decoded =~= flat);

    assert(spec_scan(b, 36, Option::Some((channels, rate))) == Option::Some(
        (channels, rate, decoded),
    ));
    assert(spec_scan(b, 12, Option::None) == spec_scan(b, 36, Option::Some((channels, rate))));
}

/// Round trip at the sample level: the container written by `export` for a
/// well-formed sample parses back to the same channel count and sample
/// rate, and de-interleaving its data returns every channel's waveform.
pub proof fn lemma_export_import_round_trip(s: Sample)
    requires
        s.wf(),
        1 <= s.spec_channels() <= 0x3FFF,
        4 * s.spec_channels() * s.spec_rate() as int <= u32::MAX,
        36 + 4 * s.spec_channels() * s.spec_len() <= u32::MAX,
    ensures
        ({
            let ch = s.spec_channels();
            let flat = spec_interleaved(s);
            &&& spec_parse_wav(spec_wav_bytes(ch as u16, s.spec_rate(), flat)) == Option::Some(
                (ch as u16, s.spec_rate(), flat),
            )
            &&& flat.len() as int / ch == s.spec_len()
            &&& forall|c: int| 0 <= c < ch ==> Seq::new(
                s.spec_len() as nat,
                |t: int| flat[t * ch + c],
            ) == (#[trigger] s.spec_waveform(c))
        }),
{
    let ch = s.spec_channels();
    let len = s.spec_len();
    let flat = spec_interleaved(s);
    assert(flat.len() == ch * len);
    assert((ch * len) % ch == 0 && (ch * len) / ch == len) by (nonlinear_arith)
        requires
            ch >= 1,
            len >= 0,
    ;
    assert(4 * flat.len() == 4 * ch * len) by (nonlinear_arith)
        requires
            flat.len() == ch * len,
    ;
    lemma_wav_round_trip(ch as u16, s.spec_rate(), flat);
    assert forall|c: int| 0 <= c < ch implies Seq::new(
        s.spec_len() as nat,
        |t: int| flat[t * ch + c],
    ) == (#[trigger] s.spec_waveform(c)) by {
        lemma_waveform_len(s, c);
        assert forall|t: int| 0 <= t < len implies flat[t * ch + c] == s.spec_waveform(c)[t] by {
            assert(0 <= t * ch + c < ch * len && (t * ch + c) % ch == c && (t * ch + c) / ch == t)
                by (nonlinear_arith)
                requires
                    0 <= t < len,
                    0 <= c < ch,
                    1 <= ch,
            ;
        }
        assert(Seq::new(s.spec_len() as nat, |t: int| flat[t * ch + c]) =~= s.spec_waveform(c));
    }
}

} // verus!
