//! Audio chunks sent between call parties, and the G.711 μ-law codec.
use vstd::prelude::*;

verus! {

/// A piece of call audio as it travels between parties.
#[derive(Clone, Debug)]
pub enum AudioChunk {
    ULaw {
        id: String,
        chunk_offset: i32,
        sample_rate: u16,
        /// μ-law encoded PCM, one byte per sample
        samples: Vec<u8>,
    },
}

impl AudioChunk {
    /// The id of the stream this chunk belongs to.
    pub fn id(&self) -> (r: &str)
        ensures
            r@ == self->id@,
    {
        match self {
            AudioChunk::ULaw { id, .. } => id.as_str(),
        }
    }

    /// The offset of this chunk within its stream.
    pub fn chunk_offset(&self) -> (r: i32)
        ensures
            r == self->chunk_offset,
    {
        match self {
            AudioChunk::ULaw { chunk_offset, .. } => *chunk_offset,
        }
    }

    /// The sample rate of the samples in this chunk.
    pub fn sample_rate(&self) -> (r: u16)
        ensures
            r == self->sample_rate,
    {
        match self {
            AudioChunk::ULaw { sample_rate, .. } => *sample_rate,
        }
    }

    /// The encoded samples, one μ-law byte per sample.
    pub fn samples(&self) -> (r: &[u8])
        ensures
            r@ == self->samples@,
    {
        match self {
            AudioChunk::ULaw { samples, .. } => samples.as_slice(),
        }
    }

    /// Decodes every sample of the chunk into 16-bit linear PCM, in order.
    pub fn decode_i16(&self) -> (r: Vec<i16>)
        ensures
            r@ == self->samples@.map_values(|b: u8| ulaw_decode(b)),
    {
        let samples = self.samples();
        let mut out: Vec<i16> = Vec::with_capacity(samples.len());
        let mut i: usize = 0;
        while i < samples.len()
            invariant
                i <= samples@.len(),
                samples@ == self->samples@,
                out@ == samples@.subrange(0, i as int).map_values(|b: u8| ulaw_decode(b)),
            decreases samples@.len() - i,
        {
            out.push(ulaw_to_linear(samples[i]));
            i += 1;
            assert(samples@.subrange(0, i as int) == samples@.subrange(0, i - 1).push(samples@[i - 1]));
        }
        assert(samples@.subrange(0, i as int) == samples@);
        out
    }
}

/// Two to the power `e`, for the exponents μ-law uses (0 to 10).
pub open spec fn ulaw_scale(e: int) -> int {
    if e <= 0 {
        1
    } else if e == 1 {
        2
    } else if e == 2 {
        4
    } else if e == 3 {
        8
    } else if e == 4 {
        16
    } else if e == 5 {
        32
    } else if e == 6 {
        64
    } else if e == 7 {
        128
    } else if e == 8 {
        256
    } else if e == 9 {
        512
    } else {
        1024
    }
}

/// The linear sample of a μ-law byte. The byte travels complemented; of its complement
/// the top bit is the sign (set for a sample at or above zero), the next three the
/// segment `e` and the low four the step `m`; the magnitude is the middle of that step,
/// `(8m + 132) * 2^e - 132`.
pub open spec fn ulaw_decode(code: u8) -> i16 {
    let u = 255 - code;
    let e = (u / 16) % 8;
    let m = u % 16;
    let magnitude = (8 * m + 132) * ulaw_scale(e) - 132;
    (if u >= 128 { magnitude } else { -magnitude }) as i16
}

/// Magnitude of a sample after clipping and biasing, as the encoder sees it.
pub open spec fn ulaw_biased_magnitude(sample: i16) -> u32 {
    let m: int = if sample >= 0 { sample as int } else { -(sample as int) };
    (if m > 32635 { 32635 } else { m } + 0x84) as u32
}

/// Segment (exponent) of a biased magnitude: the position of its highest set bit, minus 7,
/// kept within 0..=7.
pub open spec fn ulaw_exponent(mag: u32) -> u8 {
    if mag >= 0x4000 {
        7
    } else if mag >= 0x2000 {
        6
    } else if mag >= 0x1000 {
        5
    } else if mag >= 0x800 {
        4
    } else if mag >= 0x400 {
        3
    } else if mag >= 0x200 {
        2
    } else if mag >= 0x100 {
        1
    } else {
        0
    }
}

/// The μ-law code of a 16-bit linear sample: of the biased magnitude, its segment and
/// the four bits below its highest set bit, with the sign (set for a sample at or above
/// zero) on top; the byte sent is the complement.
pub open spec fn ulaw_encode(sample: i16) -> u8 {
    let sign = if sample >= 0 { 128int } else { 0int };
    let mag = ulaw_biased_magnitude(sample) as int;
    let e = ulaw_exponent(ulaw_biased_magnitude(sample)) as int;
    let m = (mag / ulaw_scale(e + 3)) % 16;
    (255 - (sign + 16 * e + m)) as u8
}

/// Decodes one μ-law byte into a 16-bit linear sample.
pub fn ulaw_to_linear(u_val: u8) -> (r: i16)
    ensures
        r == ulaw_decode(u_val),
{
    let u: u8 = !u_val;
    let m: u8 = u & 0x0F;
    let e: u8 = (u & 0x70) >> 4;
    assert(m < 16 && e < 8) by (bit_vector)
        requires
            m == u & 0x0F,
            e == (u & 0x70) >> 4,
    ;
    let shifted: i32 = (m as i32) << 3;
    assert(0 <= shifted <= 120) by (bit_vector)
        requires
            m < 16,
            shifted == (m as i32) << 3,
    ;
    let base: i32 = shifted + 0x84;
    let t: i32 = base << (e as i32);
    assert(t <= 32256 && t >= 132) by (bit_vector)
        requires
            m < 16,
            e < 8,
            base == ((m as i32) << 3) + 0x84,
            shifted == (m as i32) << 3,
            t == base << (e as i32),
    ;
    // u & 0x80 != 0 means the original sign bit was 1 (positive)
    let r: i16 = if u & 0x80 != 0 {
        (t - 0x84) as i16
    } else {
        (0x84 - t) as i16
    };
    assert(r == ulaw_decode(u_val)) by (bit_vector)
        requires
            u == !u_val,
            m == u & 0x0F,
            e == (u & 0x70) >> 4,
            base == ((m as i32) << 3) + 0x84,
            t == base << (e as i32),
            r == if u & 0x80 != 0 { (t - 0x84) as i16 } else { (0x84 - t) as i16 },
    ;
    r
}

/// Encodes one 16-bit linear sample as a μ-law byte.
pub fn linear_to_ulaw(sample: i16) -> (r: u8)
    ensures
        r == ulaw_encode(sample),
{
    let bias: i32 = 0x84;
    let clip: i32 = 32635;

    let sign: u8 = if sample >= 0 { 0x80u8 } else { 0x00u8 };
    let abs: i32 = if sample >= 0 { sample as i32 } else { -(sample as i32) };
    let mag: i32 = (if abs < clip { abs } else { clip }) + bias;

    let mag32: u32 = mag as u32;
    let leading: u32 = mag32.leading_zeros();
    proof {
        vstd::std_specs::bits::axiom_u32_leading_zeros(mag32);
    }
    let highest_bit: u32 = 31u32.saturating_sub(leading);
    let e32: u32 = highest_bit.saturating_sub(7);
    let exp: u8 = if e32 < 7 { e32 as u8 } else { 7u8 };
    assert(exp == ulaw_exponent(mag32)) by (bit_vector)
        requires
            132 <= mag32 <= 32767,
            leading <= 32,
            leading < 32 ==> (mag32 >> ((31 - leading) as u32)) & 1u32 != 0u32,
            mag32 >> ((32 - leading) as u32) == 0,
            highest_bit == if leading <= 31 { (31 - leading) as u32 } else { 0u32 },
            e32 == if highest_bit >= 7 { (highest_bit - 7) as u32 } else { 0u32 },
            exp == if e32 < 7 { e32 as u8 } else { 7u8 },
    ;
    let mantissa: u8 = ((mag >> ((exp + 3) as i32)) & 0x0F) as u8;
    assert(mantissa == ((mag32 >> ((exp + 3) as u32)) & 0x0F) as u8) by (bit_vector)
        requires
            0 <= mag <= 32767,
            mag32 == mag as u32,
            exp <= 7,
            mantissa == ((mag >> ((exp + 3) as i32)) & 0x0F) as u8,
    ;
    let r: u8 = !(sign | (exp << 4u8) | mantissa);
    assert(r == ulaw_encode(sample)) by (bit_vector)
        requires
            mag32 == ulaw_biased_magnitude(sample),
            132 <= mag32 <= 32767,
            exp == ulaw_exponent(mag32),
            sign == if sample >= 0 { 0x80u8 } else { 0x00u8 },
            mantissa == ((mag32 >> ((exp + 3) as u32)) & 0x0F) as u8,
            r == !(sign | (exp << 4u8) | mantissa),
    ;
    r
}

/// Every μ-law code survives decoding and re-encoding, except the second code for zero,
/// 0xFF, whose sample 0 re-encodes as 0x7F.
pub proof fn law_ulaw_code_roundtrip(code: u8)
    ensures
        code != 0xFF ==> ulaw_encode(ulaw_decode(code)) == code,
        code == 0xFF ==> ulaw_encode(ulaw_decode(code)) == 0x7F,
{
    assert(code != 0xFF ==> ulaw_encode(ulaw_decode(code)) == code) by (bit_vector);
    assert(code == 0xFF ==> ulaw_encode(ulaw_decode(code)) == 0x7F) by (bit_vector);
}

/// A sample within the clipping range survives encoding and decoding with its sign, within
/// 512 of its value (half the widest step), and within 4 of it near zero.
pub proof fn law_ulaw_error_bound(x: i16)
    requires
        -32635 <= x <= 32635,
    ensures
        x >= 0 ==> ulaw_decode(ulaw_encode(x)) >= 0,
        x < 0 ==> ulaw_decode(ulaw_encode(x)) <= 0,
        -512 <= ulaw_decode(ulaw_encode(x)) - x <= 512,
        -123 <= x <= 123 ==> -4 <= ulaw_decode(ulaw_encode(x)) - x <= 4,
{
    assert(x >= 0 ==> ulaw_decode(ulaw_encode(x)) >= 0) by (bit_vector)
        requires -32635 <= x <= 32635;
    assert(x < 0 ==> ulaw_decode(ulaw_encode(x)) <= 0) by (bit_vector)
        requires -32635 <= x <= 32635;
    assert(-512 <= ulaw_decode(ulaw_encode(x)) - x <= 512) by (bit_vector)
        requires -32635 <= x <= 32635;
    assert(-123 <= x <= 123 ==> -4 <= ulaw_decode(ulaw_encode(x)) - x <= 4) by (bit_vector)
        requires -32635 <= x <= 32635;
}

/// Encoding and decoding keeps the order of samples within the clipping range.
pub proof fn law_ulaw_monotone(x: i16, y: i16)
    requires
        -32635 <= x <= y <= 32635,
    ensures
        ulaw_decode(ulaw_encode(x)) <= ulaw_decode(ulaw_encode(y)),
{
    assert(ulaw_decode(ulaw_encode(x)) <= ulaw_decode(ulaw_encode(y))) by (bit_vector)
        requires -32635 <= x <= y <= 32635;
}

} // verus!
