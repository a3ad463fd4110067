//! An `f32` sample held as its IEEE-754 bit pattern (`f32::to_bits`).
//!
//! The spec functions below state, over the 32-bit pattern, what the `f32`
//! operations of the analysis compute: the sign test `x >= 0.0`, `x.abs()`,
//! and the order of `<` / `partial_cmp` on values that are not NaN.
//! Bit 31 is the sign; the remaining 31 bits are the magnitude, whose integer
//! order is the order of the absolute values, with `0x7f80_0000` for infinity
//! and anything above it a NaN.

use vstd::prelude::*;

verus! {

/// Bit pattern of the sign bit.
pub const SIGN_BIT: u32 = 0x8000_0000;

/// Bit pattern of positive infinity; magnitudes above it are NaN.
pub const INFINITY_BITS: u32 = 0x7f80_0000;

/// Bit pattern of `1e-10_f32`, the level under which a frame counts as silence.
pub const SILENCE_FLOOR_BITS: u32 = 0x2edb_e6ff;

/// The 31 magnitude bits of a sample.
pub open spec fn magnitude(b: u32) -> int {
    b as int % 0x8000_0000
}

/// The sample is a NaN.
pub open spec fn is_nan(b: u32) -> bool {
    magnitude(b) > INFINITY_BITS as int
}

/// The sample is `+0.0` or `-0.0`.
pub open spec fn is_zero(b: u32) -> bool {
    magnitude(b) == 0
}

/// The sign bit is set.
pub open spec fn sign_set(b: u32) -> bool {
    b >= SIGN_BIT
}

/// `x >= 0.0`: false for NaN, true for both zeros and every positive value.
pub open spec fn is_non_negative(b: u32) -> bool {
    !is_nan(b) && (!sign_set(b) || is_zero(b))
}

/// `x.abs()`: the sign bit cleared.
pub open spec fn abs_bits(b: u32) -> u32 {
    magnitude(b) as u32
}

/// Position of a non-NaN value on the real line, as an integer: the two
/// zeros share one position, negatives come below it, positives above.
pub open spec fn order_key(b: u32) -> int {
    if is_zero(b) {
        SIGN_BIT as int
    } else if sign_set(b) {
        0xffff_ffff - b
    } else {
        b + SIGN_BIT
    }
}

/// `a < b` on `f32`: false whenever either side is NaN.
pub open spec fn f32_lt(a: u32, b: u32) -> bool {
    !is_nan(a) && !is_nan(b) && order_key(a) < order_key(b)
}

/// Computes `x >= 0.0` for the sample with bit pattern `bits`.
pub fn is_non_negative_sample(bits: u32) -> (r: bool)
    ensures
        r == is_non_negative(bits),
{
    let m: u32 = bits % SIGN_BIT;
    m <= INFINITY_BITS && (bits < SIGN_BIT || m == 0)
}

/// Computes the bit pattern of `x.abs()`.
pub fn abs_sample(bits: u32) -> (r: u32)
    ensures
        r == abs_bits(bits),
        r < SIGN_BIT,
{
    bits % SIGN_BIT
}

/// Tells NaN apart from every other value.
pub fn is_nan_sample(bits: u32) -> (r: bool)
    ensures
        r == is_nan(bits),
{
    bits % SIGN_BIT > INFINITY_BITS
}

/// Computes `order_key` of a sample.
pub fn sample_order_key(bits: u32) -> (r: u32)
    ensures
        r == order_key(bits),
{
    let m: u32 = bits % SIGN_BIT;
    if m == 0 {
        SIGN_BIT
    } else if bits >= SIGN_BIT {
        0xffff_ffff - bits
    } else {
        bits + SIGN_BIT
    }
}

/// Computes `level > 1e-10`: the level is above the silence floor.
pub fn exceeds_silence_floor(level: u32) -> (r: bool)
    ensures
        r == f32_lt(SILENCE_FLOOR_BITS, level),
        r <==> SILENCE_FLOOR_BITS < level <= INFINITY_BITS,
{
    !is_nan_sample(level) && sample_order_key(level) > sample_order_key(SILENCE_FLOOR_BITS)
}

/// On non-negative values that are not NaN, `f32` order is the integer
/// order of the bit patterns.
pub proof fn lemma_non_negative_order(a: u32, b: u32)
    requires
        !is_nan(a),
        !is_nan(b),
        !sign_set(a),
        !sign_set(b),
    ensures
        f32_lt(a, b) <==> a < b,
{
}

/// The absolute value is never negative, and it is NaN exactly when the
/// sample is.
pub proof fn lemma_abs_non_negative(b: u32)
    ensures
        !sign_set(abs_bits(b)),
        is_nan(abs_bits(b)) == is_nan(b),
        !is_nan(b) ==> is_non_negative(abs_bits(b)),
{
}

/// The NaN patterns: exponent bits all set and a non-zero fraction, with
/// either sign.
pub proof fn lemma_nan_patterns(b: u32)
    ensures
        is_nan(b) <==> (0x7f80_0000 < b < 0x8000_0000 || 0xff80_0000 < b),
{
}

/// The zero patterns: `+0.0` is all bits clear, `-0.0` only the sign bit set.
pub proof fn lemma_zero_patterns(b: u32)
    ensures
        is_zero(b) <==> (b == 0 || b == 0x8000_0000),
{
}

/// `x >= 0.0` holds exactly for `+0.0` up to `+inf` and for `-0.0`: it fails
/// for every negative value, every NaN, and `-inf`.
pub proof fn lemma_non_negative_values(b: u32)
    ensures
        is_non_negative(b) <==> (b <= 0x7f80_0000 || b == 0x8000_0000),
        b > 0x8000_0000 ==> !is_non_negative(b),
{
}

/// `x >= 0.0` is `x` not NaN and not below zero.
pub proof fn lemma_non_negative_is_not_below_zero(b: u32)
    ensures
        is_non_negative(b) <==> (b % 0x8000_0000 <= 0x7f80_0000 && !f32_lt(b, 0)),
{
}

/// `x.abs()` clears the sign bit and nothing else: a value without sign is
/// its own absolute value, and a value and its negation have the same one.
pub proof fn lemma_abs_clears_sign(b: u32)
    ensures
        b < 0x8000_0000 ==> abs_bits(b) == b,
        b < 0x8000_0000 ==> abs_bits((b + 0x8000_0000) as u32) == b,
        b >= 0x8000_0000 ==> abs_bits(b) == b - 0x8000_0000,
{
}

/// The order `f32_lt` is the order of the real values: among values without
/// sign a larger pattern is a larger value; among negative values a larger
/// pattern is a more negative value; every negative value lies below every
/// value without sign; the two zeros are equal; NaN is not ordered.
pub proof fn lemma_order_of_values(a: u32, b: u32)
    ensures
        (a % 0x8000_0000 > 0x7f80_0000 || b % 0x8000_0000 > 0x7f80_0000) ==> !f32_lt(a, b),
        a <= 0x7f80_0000 && b <= 0x7f80_0000 ==> (f32_lt(a, b) <==> a < b),
        0x8000_0000 < a <= 0xff80_0000 && 0x8000_0000 < b <= 0xff80_0000 ==> (f32_lt(a, b)
            <==> a > b),
        0x8000_0000 < a <= 0xff80_0000 && b <= 0x7f80_0000 ==> f32_lt(a, b) && !f32_lt(b, a),
        !f32_lt(0x8000_0000, 0) && !f32_lt(0, 0x8000_0000),
        f32_lt(a, 0x8000_0000) <==> f32_lt(a, 0),
        f32_lt(0x8000_0000, b) <==> f32_lt(0, b),
{
}

/// `f32_lt` is a strict order: irreflexive and transitive.
pub proof fn lemma_order_is_strict(a: u32, b: u32, c: u32)
    ensures
        !f32_lt(a, a),
        f32_lt(a, b) && f32_lt(b, c) ==> f32_lt(a, c),
        f32_lt(a, b) ==> !f32_lt(b, a),
{
}

/// The silence floor compares as `1e-10` does: only positive values above it
/// (up to `+inf`) exceed it.
pub proof fn lemma_above_silence_floor(b: u32)
    ensures
        f32_lt(SILENCE_FLOOR_BITS, b) <==> SILENCE_FLOOR_BITS < b <= INFINITY_BITS,
{
}

} // verus!
