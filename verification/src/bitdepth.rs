//! Requantization between sample bit depths, and the dithering decision.
//!
//! A sample of a width with span `s` (`s == MAX - MIN`, an odd number) is
//! identified with the normalized amplitude `(2*i + 1) / s`, a rational in
//! `[-1, 1]`.  Requantizing to a width with span `t` maps an amplitude `v` to
//! `round(v * t/2 - 1/2)`, rounding halves away from zero.  This symmetric
//! mapping sends `MAX` to exactly `1`, `MIN` to exactly `-1`, and inverts
//! exactly for every in-range integer; the conversions here evaluate it in
//! exact integer arithmetic.

use vstd::prelude::*;
use vstd::arithmetic::div_mod::{
    lemma_fundamental_div_mod, lemma_fundamental_div_mod_converse, lemma_div_nonincreasing,
    lemma_mod_bound,
};
use crate::types::BitDepth;

verus! {

/// Largest 24-bit sample value.
pub const I24_MAX: i32 = 8388607;

/// Smallest 24-bit sample value.
pub const I24_MIN: i32 = -8388608;

/// Span of the 16-bit sample range: `i16::MAX - i16::MIN`.
pub const I16_SPAN: i64 = 65535;

/// Span of the 24-bit sample range: `I24_MAX - I24_MIN`.
pub const I24_SPAN: i64 = 16777215;

/// Nearest integer to the rational `p / q`, halves rounded away from zero.
pub open spec fn round_half_away(p: int, q: int) -> int
    recommends
        q > 0,
{
    if p >= 0 {
        (2 * p + q) / (2 * q)
    } else {
        -((2 * (-p) + q) / (2 * q))
    }
}

/// Quantization of the rational amplitude `num / den` to the integer width
/// with span `span`: `round(num/den * span/2 - 1/2)`.
pub open spec fn spec_quant(num: int, den: int, span: int) -> int
    recommends
        den > 0,
        span > 0,
{
    round_half_away(num * span - den, 2 * den)
}

/// The ideal 24-bit requantization of a 16-bit sample.
pub open spec fn spec_i16_to_i24(i: int) -> int {
    spec_quant(2 * i + 1, I16_SPAN as int, I24_SPAN as int)
}

/// The ideal 16-bit requantization of a 24-bit sample.
pub open spec fn spec_i24_to_i16(j: int) -> int {
    spec_quant(2 * j + 1, I24_SPAN as int, I16_SPAN as int)
}

/// The rounded quotient differs from the exact one by at most a half:
/// `|round(p/q) - p/q| <= 1/2`, stated over integers.
proof fn lemma_round_bounds(p: int, q: int)
    requires
        q > 0,
    ensures
        -q <= 2 * q * round_half_away(p, q) - 2 * p <= q,
{
    let d = 2 * q;
    if p >= 0 {
        let x = 2 * p + q;
        let r = x / d;
        lemma_fundamental_div_mod(x, d);
        lemma_mod_bound(x, d);
        let m = x % d;
        assert(x == d * r + m);
        assert(2 * q * r == d * r) by (nonlinear_arith)
            requires
                d == 2 * q,
        ;
        assert(round_half_away(p, q) == r);
        assert(2 * q * r - 2 * p == q - m);
    } else {
        let p2 = -p;
        let x = 2 * p2 + q;
        let r2 = x / d;
        lemma_fundamental_div_mod(x, d);
        lemma_mod_bound(x, d);
        let m = x % d;
        assert(x == d * r2 + m);
        assert(2 * q * r2 == d * r2) by (nonlinear_arith)
            requires
                d == 2 * q,
        ;
        assert(round_half_away(p, q) == -r2);
        assert(2 * q * (-r2) == -(2 * q * r2)) by (nonlinear_arith);
        assert(2 * q * (-r2) - 2 * p == m - q);
    }
}

/// Any integer within a strict half of `p / q` is the rounded quotient.
proof fn lemma_round_exact(p: int, q: int, n: int)
    requires
        q > 0,
        -q < 2 * p - 2 * q * n,
        2 * p - 2 * q * n < q,
    ensures
        round_half_away(p, q) == n,
{
    let d = 2 * q;
    if p >= 0 {
        let x = 2 * p + q;
        let rem = x - 2 * q * n;
        assert(n * d == 2 * q * n) by (nonlinear_arith)
            requires
                d == 2 * q,
        ;
        lemma_fundamental_div_mod_converse(x, d, n, rem);
        assert(round_half_away(p, q) == x / d);
    } else {
        let p2 = -p;
        let n2 = -n;
        let x = 2 * p2 + q;
        assert(2 * q * n2 == -(2 * q * n)) by (nonlinear_arith)
            requires
                n2 == -n,
        ;
        let rem = x - 2 * q * n2;
        assert(n2 * d == 2 * q * n2) by (nonlinear_arith)
            requires
                d == 2 * q,
        ;
        lemma_fundamental_div_mod_converse(x, d, n2, rem);
        assert(round_half_away(p, q) == -(x / d));
    }
}

/// Law: quantizing the ideal normalized amplitude of a sample back at its own
/// width recovers the sample exactly, for every width.
pub proof fn lemma_quantize_own_width(i: int, span: int)
    requires
        span > 0,
    ensures
        spec_quant(2 * i + 1, span, span) == i,
{
    let p = (2 * i + 1) * span - span;
    assert(p == 2 * (span * i)) by (nonlinear_arith)
        requires
            p == (2 * i + 1) * span - span,
    ;
    assert(2 * p - 2 * (2 * span) * i == 0) by (nonlinear_arith)
        requires
            p == 2 * (span * i),
    ;
    lemma_round_exact(p, 2 * span, i);
}

/// Law: the extreme samples and the extreme amplitudes map to one another
/// exactly, in both directions and at both widths.  `spec_quant(1, 1, s)`
/// quantizes the amplitude that is exactly `1`; `2 * MAX + 1 == span` says the
/// ideal amplitude of `MAX` is exactly `1` (and symmetrically for `MIN`).
pub proof fn lemma_boundary_values()
    ensures
        spec_quant(1, 1, I16_SPAN as int) == 32767,
        spec_quant(-1, 1, I16_SPAN as int) == -32768,
        spec_quant(1, 1, I24_SPAN as int) == I24_MAX as int,
        spec_quant(-1, 1, I24_SPAN as int) == I24_MIN as int,
        2 * 32767 + 1 == I16_SPAN as int,
        2 * (I24_MAX as int) + 1 == I24_SPAN as int,
        2 * (-32768) + 1 == -(I16_SPAN as int),
        2 * (I24_MIN as int) + 1 == -(I24_SPAN as int),
        spec_i16_to_i24(32767) == I24_MAX as int,
        spec_i16_to_i24(-32768) == I24_MIN as int,
        spec_i24_to_i16(I24_MAX as int) == 32767,
        spec_i24_to_i16(I24_MIN as int) == -32768,
{
    lemma_round_exact(65534, 2, 32767);
    lemma_round_exact(-65536, 2, -32768);
    lemma_round_exact(16777214, 2, 8388607);
    lemma_round_exact(-16777216, 2, -8388608);
    lemma_round_exact(65535 * 16777215 - 65535, 131070, 8388607);
    lemma_round_exact((-65535) * 16777215 - 65535, 131070, -8388608);
    lemma_round_exact(16777215 * 65535 - 16777215, 33554430, 32767);
    lemma_round_exact((-16777215) * 65535 - 16777215, 33554430, -32768);
}

/// Law: requantizing any 16-bit sample up to 24 bits and back down recovers
/// it exactly — 16-bit samples embed losslessly in the 24-bit domain.
pub proof fn lemma_requantize_roundtrip(i: int)
    requires
        -32768 <= i <= 32767,
    ensures
        spec_i24_to_i16(spec_i16_to_i24(i)) == i,
        I24_MIN as int <= spec_i16_to_i24(i) <= I24_MAX as int,
{
    let p = 2 * i + 1;
    let num = p * 16777215 - 65535;
    let j = round_half_away(num, 131070);
    lemma_round_bounds(num, 131070);
    assert(spec_i16_to_i24(i) == j);
    // The second quantization is off from `i` by the first rounding error,
    // scaled down by the width ratio; well within half a step.
    let num2 = (2 * j + 1) * 65535 - 16777215;
    assert(-131070 <= 262140 * j - 2 * num <= 131070);
    assert(2 * num2 - 67108860 * i == 262140 * j - 2 * num);
    lemma_round_exact(num2, 33554430, i);
    assert(spec_i24_to_i16(j) == round_half_away(num2, 33554430));
}

/// The 16-bit requantization of an in-range 24-bit sample is in range.
proof fn lemma_i24_to_i16_range(j: int)
    requires
        I24_MIN as int <= j <= I24_MAX as int,
    ensures
        -32768 <= spec_i24_to_i16(j) <= 32767,
{
    let p = 2 * j + 1;
    let num = p * 65535 - 16777215;
    let r = round_half_away(num, 33554430);
    lemma_round_bounds(num, 33554430);
    assert(-33554430 <= 67108860 * r - 2 * num <= 33554430);
    assert(spec_i24_to_i16(j) == r);
}

/// Nearest integer to `n / d`, halves away from zero, in executable form.
fn round_div(n: i64, d: i64) -> (r: i64)
    requires
        1 <= d <= 0x4000_0000,
        -0x1000_0000_0000_0000 <= n <= 0x1000_0000_0000_0000,
    ensures
        r as int == round_half_away(n as int, d as int),
{
    if n >= 0 {
        let num: u64 = (2 * n + d) as u64;
        let den: u64 = (2 * d) as u64;
        proof {
            lemma_div_nonincreasing(num as int, den as int);
        }
        let q: u64 = num / den;
        q as i64
    } else {
        let num: u64 = (d - 2 * n) as u64;
        let den: u64 = (2 * d) as u64;
        proof {
            lemma_div_nonincreasing(num as int, den as int);
        }
        let q: u64 = num / den;
        -(q as i64)
    }
}

/// Requantizes a 16-bit sample to 24 bits through the symmetric normalized
/// mapping, evaluated exactly.
pub fn i16_to_i24(input: i16) -> (r: i32)
    ensures
        r as int == spec_i16_to_i24(input as int),
        I24_MIN <= r <= I24_MAX,
        input == i16::MAX ==> r == I24_MAX,
        input == i16::MIN ==> r == I24_MIN,
{
    let p: i64 = 2 * (input as i64) + 1;
    let n: i64 = p * I24_SPAN - I16_SPAN;
    proof {
        lemma_requantize_roundtrip(input as int);
        if input == i16::MAX || input == i16::MIN {
            lemma_boundary_values();
        }
    }
    let r = round_div(n, 2 * I16_SPAN);
    r as i32
}

/// Requantizes a 24-bit sample to 16 bits through the symmetric normalized
/// mapping, evaluated exactly.
pub fn i24_to_i16(input: i32) -> (r: i16)
    requires
        I24_MIN <= input <= I24_MAX,
    ensures
        r as int == spec_i24_to_i16(input as int),
        input == I24_MAX ==> r == i16::MAX,
        input == I24_MIN ==> r == i16::MIN,
{
    let p: i64 = 2 * (input as i64) + 1;
    let n: i64 = p * I16_SPAN - I24_SPAN;
    proof {
        lemma_i24_to_i16_range(input as int);
        if input == I24_MAX || input == I24_MIN {
            lemma_boundary_values();
        }
    }
    let r = round_div(n, 2 * I24_SPAN);
    r as i16
}

/// Widens a 16-bit sample to 24 bits by pure bit embedding, with no rounding:
/// the sample becomes the high byte, and nonnegative samples get their low
/// bits saturated so that `i16::MAX` reaches `I24_MAX` exactly.
pub fn i16_to_i24_no_fp(input: i16) -> (r: i32)
    ensures
        r as int == spec_embed_i16(input as int),
        I24_MIN <= r <= I24_MAX,
        input == i16::MAX ==> r == I24_MAX,
        input == i16::MIN ==> r == I24_MIN,
{
    if input < 0 {
        (input as i32) * 256
    } else {
        (input as i32) * 256 + 255
    }
}

/// The bit-embedding of a 16-bit sample into the 24-bit domain.
pub open spec fn spec_embed_i16(i: int) -> int {
    if i < 0 {
        256 * i
    } else {
        256 * i + 255
    }
}

/// Narrows a 24-bit sample to 16 bits by dropping the low byte (the floor of
/// division by 256, as an arithmetic right shift computes it).
pub fn i24_to_i16_no_fp(input: i32) -> (r: i16)
    requires
        I24_MIN <= input <= I24_MAX,
    ensures
        r as int == (input as int) / 256,
        input == I24_MAX ==> r == i16::MAX,
        input == I24_MIN ==> r == i16::MIN,
{
    if input >= 0 {
        ((input as u32) / 256) as i16
    } else {
        let m: u32 = (255 - input) as u32;
        proof {
            let i = input as int;
            lemma_fundamental_div_mod(i, 256);
            lemma_mod_bound(i, 256);
            lemma_fundamental_div_mod_converse(255 - i, 256, -(i / 256), 255 - (i % 256));
        }
        (-((m / 256) as i32)) as i16
    }
}

/// Law: the bit-embedding of a 16-bit sample into the 24-bit domain, followed
/// by dropping the low byte again, recovers the sample exactly.
pub proof fn lemma_embed_truncate_roundtrip(i: int)
    requires
        -32768 <= i <= 32767,
    ensures
        spec_embed_i16(i) / 256 == i,
{
    if i < 0 {
        lemma_fundamental_div_mod_converse(256 * i, 256, i, 0);
    } else {
        lemma_fundamental_div_mod_converse(256 * i + 255, 256, i, 255);
    }
}

/// The supported conversion graph: a stage either requantizes from the
/// float working representation to any depth, or normalizes source material
/// to float — and a normalizing stage's recorded original depth must be the
/// source depth itself.
pub open spec fn spec_conversion_supported(
    inbits: BitDepth,
    outbits: BitDepth,
    origbits: BitDepth,
) -> bool {
    ||| inbits is F32
    ||| (outbits is F32 && inbits == origbits)
}

/// Whether a bit-depth conversion applies dither, given the depth the samples
/// arrive in, the depth they leave in, and the bit depth of the true original
/// source material.  Dither is applied exactly when narrowing the float
/// representation to 16 bits discards precision the original material
/// actually had — a 24-bit source; `None` marks conversions outside the
/// supported graph.
pub open spec fn spec_dither_decision(
    inbits: BitDepth,
    outbits: BitDepth,
    origbits: BitDepth,
) -> Option<bool> {
    if spec_conversion_supported(inbits, outbits, origbits) {
        Some(inbits is F32 && outbits is I16 && origbits is I24)
    } else {
        None
    }
}

/// Decides whether a bit-depth conversion stage dithers; see
/// [`spec_dither_decision`].
pub fn dither_decision(inbits: BitDepth, outbits: BitDepth, origbits: BitDepth) -> (r: Option<
    bool,
>)
    ensures
        r == spec_dither_decision(inbits, outbits, origbits),
{
    match (inbits, outbits, origbits) {
        (BitDepth::F32, BitDepth::F32, BitDepth::F32) => Some(false),
        (BitDepth::F32, BitDepth::I24, BitDepth::F32) => Some(false),
        (BitDepth::F32, BitDepth::I16, BitDepth::F32) => Some(false),
        (BitDepth::F32, BitDepth::F32, BitDepth::I24) => Some(false),
        (BitDepth::F32, BitDepth::I24, BitDepth::I24) => Some(false),
        (BitDepth::F32, BitDepth::I16, BitDepth::I24) => Some(true),
        (BitDepth::F32, BitDepth::F32, BitDepth::I16) => Some(false),
        (BitDepth::F32, BitDepth::I24, BitDepth::I16) => Some(false),
        (BitDepth::F32, BitDepth::I16, BitDepth::I16) => Some(false),
        (BitDepth::I24, BitDepth::F32, BitDepth::I24) => Some(false),
        (BitDepth::I16, BitDepth::F32, BitDepth::I16) => Some(false),
        _ => None,
    }
}

} // verus!
