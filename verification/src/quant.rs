//! Fixed-point quantization of world coordinates.
//!
//! A world coordinate is carried as an `i64` number of micro-units
//! (1 world unit = 1_000_000 micro-units). A quantized coordinate, as it
//! is stored per vertex and sent to the GPU, is an `i32` number of
//! milli-units (1 world unit = 1000 milli-units). Encoding divides by
//! 1000 and truncates toward zero — deliberately truncation, not
//! rounding — and saturates at the `i32` range; the GPU shader decodes
//! with the symmetric constant scale 0.001.

use vstd::prelude::*;

verus! {

/// Micro-units per world unit: the resolution of an unquantized coordinate.
pub const MICRO_PER_UNIT: i64 = 1_000_000;

/// Micro-units per quantized step: the quantization scale. One quantized
/// step is 0.001 of a world unit.
pub const MICRO_PER_STEP: i64 = 1000;

/// Division truncating toward zero (the rounding mode of the quantizer),
/// for a positive divisor.
pub open spec fn trunc_div(a: int, b: int) -> int {
    if a >= 0 {
        a / b
    } else {
        -((-a) / b)
    }
}

/// What encoding a coordinate yields: its micro-unit value divided by
/// 1000, truncated toward zero, then saturated to the `i32` range.
pub open spec fn quantize(c: int) -> int {
    let q = trunc_div(c, MICRO_PER_STEP as int);
    if q > i32::MAX {
        i32::MAX as int
    } else if q < i32::MIN {
        i32::MIN as int
    } else {
        q
    }
}

/// What decoding a quantized coordinate yields: its micro-unit value.
pub open spec fn dequantize(q: int) -> int {
    q * (MICRO_PER_STEP as int)
}

/// Encode one coordinate axis: micro-units to quantized milli-unit steps,
/// truncating toward zero and saturating at the `i32` range.
pub fn encode_coord(c: i64) -> (q: i32)
    ensures
        q as int == quantize(c as int),
{
    if c >= 2_147_483_647_000 {
        i32::MAX
    } else if c <= -2_147_483_648_000 {
        i32::MIN
    } else if c >= 0 {
        (c / 1000) as i32
    } else {
        (-((-c) / 1000)) as i32
    }
}

/// Decode one quantized coordinate back to micro-units. This is exact:
/// the loss happened in `encode_coord`.
pub fn decode_coord(q: i32) -> (c: i64)
    ensures
        c as int == dequantize(q as int),
{
    (q as i64) * 1000
}

/// Quantization round-trip: as long as the coordinate is within the
/// non-saturating range (which covers all of [-1000, 1000] world units
/// and far beyond), decoding the encoded value lands strictly within one
/// quantization step (0.001 world units) of the original, and the bias is
/// consistently toward zero.
pub proof fn lemma_quantize_round_trip(c: int)
    requires
        -2_147_483_648_000 <= c <= 2_147_483_647_999,
    ensures
        dequantize(quantize(c)) - c < MICRO_PER_STEP as int,
        c - dequantize(quantize(c)) < MICRO_PER_STEP as int,
        c >= 0 ==> 0 <= dequantize(quantize(c)) <= c,
        c <= 0 ==> c <= dequantize(quantize(c)) <= 0,
{
    if c >= 0 {
        assert(c == 1000 * (c / 1000) + c % 1000);
    } else {
        let m = -c;
        assert(m == 1000 * (m / 1000) + m % 1000);
    }
}

} // verus!
