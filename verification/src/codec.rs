//! G.711 mu-law <-> signed 16-bit linear PCM conversion.
//!
//! A sample is compressed to a sign, a segment number and a four-bit position
//! inside the segment. Each segment doubles the step size of the one below it,
//! so the resolution is finest around silence.

use vstd::prelude::*;

verus! {

/// Bias added before compression, so that every magnitude falls in a segment.
pub const BIAS: i32 = 132;

/// Largest magnitude before clipping.
pub const CLIP: i32 = 32635;

/// The magnitude of `sample` after clipping, with the bias added.
pub open spec fn biased_magnitude(sample: int) -> int {
    let magnitude = if sample < 0 { -sample } else { sample };
    (if magnitude > CLIP { CLIP as int } else { magnitude }) + BIAS
}

/// The segment of a biased magnitude: segment `k` covers `[2^(k+7), 2^(k+8))`.
pub open spec fn segment(biased: int) -> int {
    if biased < 256 {
        0
    } else if biased < 512 {
        1
    } else if biased < 1024 {
        2
    } else if biased < 2048 {
        3
    } else if biased < 4096 {
        4
    } else if biased < 8192 {
        5
    } else if biased < 16384 {
        6
    } else {
        7
    }
}

/// Width of one quantization step in segment `k`, that is `2^(k+3)`.
pub open spec fn step(k: int) -> int {
    if k == 0 {
        8
    } else if k == 1 {
        16
    } else if k == 2 {
        32
    } else if k == 3 {
        64
    } else if k == 4 {
        128
    } else if k == 5 {
        256
    } else if k == 6 {
        512
    } else {
        1024
    }
}

/// Position of a biased magnitude inside its segment, counted in steps.
pub open spec fn mantissa(biased: int) -> int {
    (biased / step(segment(biased))) % 16
}

/// The mu-law byte of a linear sample. All bits are inverted on the wire.
pub open spec fn ulaw_of(sample: int) -> int {
    let biased = biased_magnitude(sample);
    let sign: int = if sample < 0 { 128 } else { 0 };
    255 - (sign + 16 * segment(biased) + mantissa(biased))
}

/// `v * 2^k` for a segment number `k`.
pub open spec fn scaled(v: int, k: int) -> int {
    if k == 0 {
        v
    } else if k == 1 {
        2 * v
    } else if k == 2 {
        4 * v
    } else if k == 3 {
        8 * v
    } else if k == 4 {
        16 * v
    } else if k == 5 {
        32 * v
    } else if k == 6 {
        64 * v
    } else {
        128 * v
    }
}

/// The linear sample of a mu-law byte: the middle of its quantization step.
pub open spec fn slin_of(byte: int) -> int {
    let bits = 255 - byte;
    let magnitude = scaled(8 * (bits % 16) + BIAS, (bits / 16) % 8) - BIAS;
    if bits >= 128 {
        -magnitude
    } else {
        magnitude
    }
}

/// Splits a biased magnitude into its segment number and mantissa.
fn split_magnitude(biased: i32) -> (r: (u8, u8))
    requires
        BIAS <= biased <= CLIP + BIAS,
    ensures
        r.0 == segment(biased as int),
        r.1 == mantissa(biased as int),
        r.0 < 8,
        r.1 < 16,
{
    if biased < 256 {
        (0, ((biased / 8) % 16) as u8)
    } else if biased < 512 {
        (1, ((biased / 16) % 16) as u8)
    } else if biased < 1024 {
        (2, ((biased / 32) % 16) as u8)
    } else if biased < 2048 {
        (3, ((biased / 64) % 16) as u8)
    } else if biased < 4096 {
        (4, ((biased / 128) % 16) as u8)
    } else if biased < 8192 {
        (5, ((biased / 256) % 16) as u8)
    } else if biased < 16384 {
        (6, ((biased / 512) % 16) as u8)
    } else {
        (7, ((biased / 1024) % 16) as u8)
    }
}

/// Encodes a single 16-bit signed linear sample to 8-bit mu-law.
pub fn slin_sample_to_ulaw(sample: i16) -> (byte: u8)
    ensures
        byte == ulaw_of(sample as int),
{
    let negative = sample < 0;
    let mut magnitude: i32 = if negative {
        -(sample as i32)
    } else {
        sample as i32
    };
    if magnitude > CLIP {
        magnitude = CLIP;
    }
    let (exponent, mant) = split_magnitude(magnitude + BIAS);
    let sign: u8 = if negative {
        128
    } else {
        0
    };
    255 - (sign + 16 * exponent + mant)
}

/// Decodes a single 8-bit mu-law byte to 16-bit signed linear.
pub fn ulaw_sample_to_slin(u_val: u8) -> (sample: i16)
    ensures
        sample == slin_of(u_val as int),
{
    let bits: u8 = 255 - u_val;
    let exponent: u8 = (bits / 16) % 8;
    let base: i32 = 8 * ((bits % 16) as i32) + BIAS;
    let wide: i32 = match exponent {
        0 => base,
        1 => 2 * base,
        2 => 4 * base,
        3 => 8 * base,
        4 => 16 * base,
        5 => 32 * base,
        6 => 64 * base,
        _ => 128 * base,
    };
    let magnitude: i16 = (wide - BIAS) as i16;
    if bits >= 128 {
        -magnitude
    } else {
        magnitude
    }
}

/// The sample held by two little-endian bytes, in two's complement.
pub open spec fn le_sample(lo: u8, hi: u8) -> int {
    let v = lo + 256 * hi;
    if v >= 32768 {
        v - 65536
    } else {
        v
    }
}

/// Low byte of the two's complement form of `v`.
pub open spec fn low_byte(v: int) -> u8 {
    (v % 256) as u8
}

/// High byte of the two's complement form of `v`.
pub open spec fn high_byte(v: int) -> u8 {
    ((v / 256) % 256) as u8
}

/// Linear PCM encoded sample by sample.
pub open spec fn ulaw_bytes(slin: Seq<u8>) -> Seq<u8> {
    Seq::new(
        slin.len() / 2,
        |i: int| ulaw_of(le_sample(slin[2 * i], slin[2 * i + 1])) as u8,
    )
}

/// Mu-law decoded byte by byte.
pub open spec fn slin_bytes(ulaw: Seq<u8>) -> Seq<u8> {
    Seq::new(
        2 * ulaw.len(),
        |i: int|
            if i % 2 == 0 {
                low_byte(slin_of(ulaw[i / 2] as int))
            } else {
                high_byte(slin_of(ulaw[i / 2] as int))
            },
    )
}

/// Converts a buffer of signed 16-bit little-endian PCM to mu-law, one byte
/// per sample. The buffer must hold whole samples.
pub fn encode_ulaw(slin: &[u8]) -> (ulaw: Vec<u8>)
    requires
        slin@.len() % 2 == 0,
    ensures
        ulaw@ == ulaw_bytes(slin@),
        2 * ulaw@.len() == slin@.len(),
{
    let mut ulaw: Vec<u8> = Vec::with_capacity(slin.len() / 2);
    let mut i: usize = 0;
    while i < slin.len() / 2
        invariant
            i <= slin@.len() / 2,
            ulaw@ == ulaw_bytes(slin@).take(i as int),
        decreases slin@.len() / 2 - i,
    {
        let v: i32 = slin[2 * i] as i32 + 256 * (slin[2 * i + 1] as i32);
        let sample: i16 = (if v >= 32768 {
            v - 65536
        } else {
            v
        }) as i16;
        ulaw.push(slin_sample_to_ulaw(sample));
        i += 1;
    }
    ulaw
}

/// Converts a buffer of mu-law to signed 16-bit little-endian PCM, two bytes
/// per sample.
pub fn decode_ulaw(ulaw: &[u8]) -> (slin: Vec<u8>)
    ensures
        slin@ == slin_bytes(ulaw@),
        slin@.len() == 2 * ulaw@.len(),
{
    let mut slin: Vec<u8> = Vec::new();
    let mut i: usize = 0;
    while i < ulaw.len()
        invariant
            i <= ulaw@.len(),
            slin@ == slin_bytes(ulaw@).take(2 * i),
        decreases ulaw@.len() - i,
    {
        let sample: i16 = ulaw_sample_to_slin(ulaw[i]);
        let v: i32 = sample as i32;
        let bits: i32 = if v < 0 {
            v + 65536
        } else {
            v
        };
        slin.push((bits % 256) as u8);
        slin.push((bits / 256) as u8);
        i += 1;
    }
    slin
}

/// The bytes waiting to be framed: what an earlier read left over, then `data`.
pub open spec fn pending(residual: Option<u8>, data: Seq<u8>) -> Seq<u8> {
    match residual {
        Some(r) => seq![r] + data,
        None => data,
    }
}

/// The part of `bytes` that holds whole samples.
pub open spec fn whole_samples(bytes: Seq<u8>) -> Seq<u8> {
    bytes.take(bytes.len() - bytes.len() % 2)
}

/// The byte of `bytes` that belongs to no whole sample.
pub open spec fn left_over(bytes: Seq<u8>) -> Option<u8> {
    if bytes.len() % 2 == 0 {
        None
    } else {
        Some(bytes.last())
    }
}

/// Puts any residual byte of a previous read in front of `data` and returns the
/// whole samples; a trailing odd byte becomes the new residual.
///
/// Socket reads may split a sample, so the odd byte is carried to the next read.
pub fn align_slin_buffer(residual: &mut Option<u8>, data: &[u8]) -> (buf: Vec<u8>)
    ensures
        buf@ == whole_samples(pending(*old(residual), data@)),
        *final(residual) == left_over(pending(*old(residual), data@)),
        buf@.len() % 2 == 0,
{
    let mut buf: Vec<u8> = Vec::with_capacity(data.len());
    if let Some(r) = residual.take() {
        buf.push(r);
    }
    buf.extend_from_slice(data);
    assert(buf@ == pending(*old(residual), data@));
    if buf.len() % 2 != 0 {
        *residual = buf.pop();
    }
    buf
}

/// Decoding an encoded sample gives it back to within half a quantization step
/// of its segment, as long as it is not clipped.
pub proof fn law_quantization_error(sample: int)
    requires
        -CLIP <= sample <= CLIP,
    ensures
        -step(segment(biased_magnitude(sample))) <= 2 * (slin_of(ulaw_of(sample)) - sample)
            <= step(segment(biased_magnitude(sample))),
{
}

/// The error of a round trip stays under 700 over the whole 16-bit range, and
/// under 8 for the small values of a training tone.
pub proof fn law_round_trip_tolerance(sample: int)
    requires
        -32768 <= sample <= 32767,
    ensures
        -700 < slin_of(ulaw_of(sample)) - sample < 700,
        -100 <= sample <= 100 ==> -8 < slin_of(ulaw_of(sample)) - sample < 8,
{
}

/// A mu-law byte survives decoding and encoding. The one exception is 127, the
/// negative zero: it decodes to silence, which encodes to 255.
pub proof fn law_decode_encode(byte: int)
    requires
        0 <= byte <= 255,
        byte != 127,
    ensures
        ulaw_of(slin_of(byte)) == byte,
{
    let bits = 255 - byte;
    let (k, m) = ((bits / 16) % 8, bits % 16);
    let sample = slin_of(byte);
    let biased = biased_magnitude(sample);
    assert(0 <= k < 8 && 0 <= m < 16);
    assert(132 <= scaled(8 * m + 132, k) <= 32256);
    assert(biased == scaled(8 * m + 132, k));
    assert(segment(biased) == k);
    assert(biased / step(k) == m + 16);
    assert(sample < 0 <==> bits >= 128);
    assert(bits == (if bits >= 128 {
        128int
    } else {
        0
    }) + 16 * k + m);
}

/// Lower end of segment `k`, that is `2^(k+7)`.
spec fn floor(k: int) -> int {
    16 * step(k)
}

/// A decoded magnitude stays inside the segment of the sample it came from.
proof fn lemma_decoded_in_segment(sample: int)
    requires
        0 <= sample <= 32768,
    ensures
        ({
            let k = segment(biased_magnitude(sample));
            &&& 0 <= k < 8
            &&& floor(k) <= slin_of(ulaw_of(sample)) + BIAS < 2 * floor(k)
            &&& slin_of(ulaw_of(sample)) + BIAS == floor(k) + scaled(4, k) + scaled(
                8 * mantissa(biased_magnitude(sample)),
                k,
            )
        }),
{
}

/// Inside one segment a larger magnitude has no smaller mantissa.
proof fn lemma_mantissa_monotone(a: int, b: int)
    requires
        BIAS <= a <= b <= CLIP + BIAS,
        segment(a) == segment(b),
    ensures
        mantissa(a) <= mantissa(b),
{
}

/// Compression keeps the order of samples that are not negative.
proof fn lemma_monotone_positive(a: int, b: int)
    requires
        0 <= a <= b <= 32768,
    ensures
        0 <= slin_of(ulaw_of(a)) <= slin_of(ulaw_of(b)),
{
    lemma_decoded_in_segment(a);
    lemma_decoded_in_segment(b);
    let (ma, mb) = (biased_magnitude(a), biased_magnitude(b));
    if segment(ma) == segment(mb) {
        lemma_mantissa_monotone(ma, mb);
    } else {
        assert(2 * floor(segment(ma)) <= floor(segment(mb)));
    }
}

/// Compression keeps the order of samples.
pub proof fn law_monotone(a: int, b: int)
    requires
        -32768 <= a <= b <= 32767,
    ensures
        slin_of(ulaw_of(a)) <= slin_of(ulaw_of(b)),
{
    if a >= 0 {
        lemma_monotone_positive(a, b);
    } else if b < 0 {
        lemma_monotone_positive(-b, -a);
        law_symmetric(-b);
        law_symmetric(-a);
    } else {
        lemma_monotone_positive(0, b);
        lemma_monotone_positive(0, -a);
        law_symmetric(-a);
    }
}

/// Compression is odd: a sample and its negation decode to opposite values.
pub proof fn law_symmetric(sample: int)
    requires
        -32768 <= sample <= 32768,
    ensures
        slin_of(ulaw_of(-sample)) == -slin_of(ulaw_of(sample)),
{
}

/// A mu-law buffer without a negative zero survives decoding and encoding.
pub proof fn law_buffer_decode_encode(ulaw: Seq<u8>)
    requires
        forall|i: int| 0 <= i < ulaw.len() ==> ulaw[i] != 127,
    ensures
        ulaw_bytes(slin_bytes(ulaw)) == ulaw,
{
    let slin = slin_bytes(ulaw);
    assert forall|i: int| 0 <= i < ulaw.len() implies #[trigger] ulaw_bytes(slin)[i]
        == ulaw[i] by {
        let v = slin_of(ulaw[i] as int);
        assert((2 * i) % 2 == 0 && (2 * i) / 2 == i && (2 * i + 1) % 2 == 1 && (2 * i + 1) / 2
            == i);
        assert(-32768 <= v <= 32767);
        assert(le_sample(slin[2 * i], slin[2 * i + 1]) == v);
        law_decode_encode(ulaw[i] as int);
    }
    assert(ulaw_bytes(slin) =~= ulaw);
}

/// Alignment loses no byte: what comes out, followed by the new residual, is
/// the old residual followed by the data.
pub proof fn law_align_keeps_bytes(residual: Option<u8>, data: Seq<u8>)
    ensures
        ({
            let bytes = pending(residual, data);
            match left_over(bytes) {
                Some(b) => whole_samples(bytes).push(b) == bytes,
                None => whole_samples(bytes) == bytes,
            }
        }),
{
}

/// Sample alignment does not depend on where reads split the stream: aligning
/// `a` and then `b` gives the bytes and the residual of aligning `a + b`.
pub proof fn law_align_across_reads(residual: Option<u8>, a: Seq<u8>, b: Seq<u8>)
    ensures
        ({
            let first = pending(residual, a);
            let second = pending(left_over(first), b);
            let joined = pending(residual, a + b);
            &&& whole_samples(first) + whole_samples(second) == whole_samples(joined)
            &&& left_over(second) == left_over(joined)
        }),
{
    let first = pending(residual, a);
    let second = pending(left_over(first), b);
    let joined = pending(residual, a + b);
    assert(joined =~= first + b);
    assert(whole_samples(first) + second =~= joined);
    assert(whole_samples(first) + whole_samples(second) =~= whole_samples(joined));
}

/// Decoded samples are written with the low byte first, in two's complement.
pub proof fn law_decoded_bytes(ulaw: Seq<u8>, i: int)
    requires
        0 <= i < ulaw.len(),
    ensures
        slin_bytes(ulaw).len() == 2 * ulaw.len(),
        slin_bytes(ulaw)[2 * i] + 256 * slin_bytes(ulaw)[2 * i + 1] == slin_of(ulaw[i] as int)
            + (if slin_of(ulaw[i] as int) < 0 {
            65536int
        } else {
            0
        }),
{
    let v = slin_of(ulaw[i] as int);
    assert((2 * i) % 2 == 0 && (2 * i) / 2 == i && (2 * i + 1) % 2 == 1 && (2 * i + 1) / 2 == i);
    assert(-32768 <= v <= 32767);
}

/// Samples are read with the low byte first, in two's complement, and each gives
/// one mu-law byte.
pub proof fn law_encoded_bytes(slin: Seq<u8>, i: int, sample: int)
    requires
        0 <= 2 * i,
        2 * i + 1 < slin.len(),
        -32768 <= sample < 32768,
        slin[2 * i] + 256 * slin[2 * i + 1] == sample + (if sample < 0 {
            65536int
        } else {
            0
        }),
    ensures
        ulaw_bytes(slin).len() == slin.len() / 2,
        ulaw_bytes(slin)[i] == ulaw_of(sample),
{
    assert(0 <= ulaw_of(sample) <= 255);
}

/// Alignment keeps the order of the bytes: the byte that was left over comes
/// first, then the data, and of all of them only an odd last one is left over.
pub proof fn law_align_order(left: Seq<u8>, data: Seq<u8>)
    requires
        left.len() <= 1,
    ensures
        ({
            let residual = if left.len() == 1 {
                Some(left[0])
            } else {
                None
            };
            let bytes = left + data;
            let (aligned, rest) = (
                whole_samples(pending(residual, data)),
                left_over(pending(residual, data)),
            );
            if bytes.len() % 2 == 0 {
                aligned == bytes && rest is None
            } else {
                aligned == bytes.drop_last() && rest == Some(bytes.last())
            }
        }),
{
    let residual = if left.len() == 1 {
        Some(left[0])
    } else {
        None
    };
    assert(pending(residual, data) =~= left + data);
}

} // verus!
