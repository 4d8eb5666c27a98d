//! Bit patterns of IEEE 754 binary64 numbers.
//!
//! Sampled values travel through this crate as the 64-bit patterns of
//! double-precision numbers: one sign bit, eleven exponent bits and
//! fifty-two fraction bits. Everything the plotting core has to decide about
//! a sample (is it finite, which of two samples is the lesser) can be read off
//! the pattern with integer arithmetic alone.
use vstd::arithmetic::mul::{lemma_mul_inequality, lemma_mul_strict_inequality};
use vstd::arithmetic::power2::{
    lemma2_to64_rest, lemma_pow2_adds, lemma_pow2_pos, lemma_pow2_strictly_increases,
    lemma_pow2_unfold, pow2,
};
use vstd::prelude::*;

verus! {

/// The sign bit of a pattern.
pub const SIGN_BIT: u64 = 0x8000_0000_0000_0000;

/// The pattern of positive infinity. Every pattern whose magnitude lies below
/// it is finite; the patterns whose magnitude lies above it are the NaNs.
pub const INFINITY: u64 = 0x7FF0_0000_0000_0000;

/// The pattern of the number `1.0`.
pub const ONE: u64 = 0x3FF0_0000_0000_0000;

/// The pattern of the number `-1.0`.
pub const NEGATIVE_ONE: u64 = 0xBFF0_0000_0000_0000;

/// Whether the sign bit of `bits` is set.
pub open spec fn negative(bits: u64) -> bool {
    bits >= SIGN_BIT
}

/// The pattern with its sign bit cleared.
pub open spec fn magnitude(bits: u64) -> u64 {
    if bits >= SIGN_BIT {
        (bits - SIGN_BIT) as u64
    } else {
        bits
    }
}

/// Whether `bits` stands for a number: a zero, a subnormal or a normal value.
pub open spec fn finite(bits: u64) -> bool {
    magnitude(bits) < INFINITY
}

/// Whether `bits` is a NaN.
pub open spec fn nan(bits: u64) -> bool {
    magnitude(bits) > INFINITY
}

/// The place of a pattern in the total order of binary64 values: negative
/// patterns come before positive ones, and within one sign a larger magnitude
/// lies further from zero. Negative zero comes directly before positive zero.
pub open spec fn rank(bits: u64) -> int {
    if bits >= SIGN_BIT {
        -(magnitude(bits) as int) - 1
    } else {
        bits as int
    }
}

/// Whether `bits` stands for a number.
pub fn is_finite(bits: u64) -> (r: bool)
    ensures
        r == finite(bits),
{
    if bits >= SIGN_BIT {
        bits - SIGN_BIT < INFINITY
    } else {
        bits < INFINITY
    }
}

/// Whether `a` comes strictly before `b` in the total order.
pub fn precedes(a: u64, b: u64) -> (r: bool)
    ensures
        r == (rank(a) < rank(b)),
{
    if a >= SIGN_BIT {
        if b >= SIGN_BIT {
            a > b
        } else {
            true
        }
    } else {
        if b >= SIGN_BIT {
            false
        } else {
            a < b
        }
    }
}

/// The lesser of two values: of a NaN and another pattern it is the other
/// one, of two patterns that are no NaN it is the one that comes first.
pub open spec fn lesser(a: u64, b: u64) -> u64 {
    if nan(a) {
        b
    } else if nan(b) {
        a
    } else if rank(a) <= rank(b) {
        a
    } else {
        b
    }
}

/// The greater of two values: of a NaN and another pattern it is the other
/// one, of two patterns that are no NaN it is the one that comes last.
pub open spec fn greater(a: u64, b: u64) -> u64 {
    if nan(a) {
        b
    } else if nan(b) {
        a
    } else if rank(a) >= rank(b) {
        a
    } else {
        b
    }
}

/// Whether `bits` is a NaN.
pub fn is_nan(bits: u64) -> (r: bool)
    ensures
        r == nan(bits),
{
    if bits >= SIGN_BIT {
        bits - SIGN_BIT > INFINITY
    } else {
        bits > INFINITY
    }
}

/// The lesser of two values.
pub fn minimum(a: u64, b: u64) -> (r: u64)
    ensures
        r == lesser(a, b),
{
    if is_nan(a) {
        b
    } else if is_nan(b) {
        a
    } else if precedes(b, a) {
        b
    } else {
        a
    }
}

/// The greater of two values.
pub fn maximum(a: u64, b: u64) -> (r: u64)
    ensures
        r == greater(a, b),
{
    if is_nan(a) {
        b
    } else if is_nan(b) {
        a
    } else if precedes(a, b) {
        b
    } else {
        a
    }
}

/// The lesser and the greater of two values are among the two, and unless
/// both are NaNs they do not depend on which is named first. Where neither
/// is a NaN, the lesser comes before or with both and the greater after or
/// with both: an interval that takes the lesser of a new left end and its
/// right end for its left end does not turn round.
pub proof fn lemma_lesser_and_greater(a: u64, b: u64)
    ensures
        lesser(a, b) == a || lesser(a, b) == b,
        greater(a, b) == a || greater(a, b) == b,
        !(nan(a) && nan(b)) ==> lesser(a, b) == lesser(b, a),
        !(nan(a) && nan(b)) ==> greater(a, b) == greater(b, a),
        !nan(a) && !nan(b) ==> rank(lesser(a, b)) <= rank(b) <= rank(greater(a, b)),
        !nan(a) && !nan(b) ==> rank(lesser(a, b)) <= rank(a) <= rank(greater(a, b)),
{
    if rank(a) == rank(b) {
        lemma_rank_injective(a, b);
    }
}

/// Two patterns with the same rank are the same pattern.
pub proof fn lemma_rank_injective(a: u64, b: u64)
    requires
        rank(a) == rank(b),
    ensures
        a == b,
{
}

/// Two to the power of fifty-two: the weight of the lowest exponent bit,
/// and the hidden leading bit of a normal significand.
pub const HIDDEN_BIT: u64 = 0x10_0000_0000_0000;

/// The exponent bits of a pattern, as a number from 0 to 2047.
pub open spec fn exponent_field(bits: u64) -> int {
    magnitude(bits) as int / (HIDDEN_BIT as int)
}

/// The fraction bits of a pattern, as a number below two to the fifty-two.
pub open spec fn fraction(bits: u64) -> int {
    magnitude(bits) as int % (HIDDEN_BIT as int)
}

/// The absolute value of the number that a finite pattern stands for, in
/// units of two to the power of minus 1074: the fraction itself for a zero
/// or a subnormal, and the fraction under its hidden bit, shifted left by the
/// exponent field less one, for a normal value.
pub open spec fn scaled_magnitude(bits: u64) -> int {
    if exponent_field(bits) == 0 {
        fraction(bits)
    } else {
        (HIDDEN_BIT + fraction(bits)) * pow2((exponent_field(bits) - 1) as nat)
    }
}

/// The number that a finite pattern stands for, in units of two to the power
/// of minus 1074. In these units every binary64 number is an integer.
pub open spec fn scaled_value(bits: u64) -> int {
    if negative(bits) {
        -scaled_magnitude(bits)
    } else {
        scaled_magnitude(bits)
    }
}

/// Among finite patterns, a larger magnitude stands for a number further
/// from zero.
pub proof fn lemma_magnitude_orders_values(a: u64, b: u64)
    requires
        finite(a),
        finite(b),
        magnitude(a) < magnitude(b),
    ensures
        0 <= scaled_magnitude(a) < scaled_magnitude(b),
{
    let hidden: int = HIDDEN_BIT as int;
    let ea: int = exponent_field(a);
    let eb: int = exponent_field(b);
    let fa: int = fraction(a);
    let fb: int = fraction(b);
    assert(magnitude(a) == ea * hidden + fa && 0 <= fa < hidden && ea >= 0);
    assert(magnitude(b) == eb * hidden + fb && 0 <= fb < hidden && eb >= 0);
    assert(ea <= eb);
    if ea == eb {
        if ea != 0 {
            let shift: int = pow2((ea - 1) as nat) as int;
            lemma_pow2_pos((ea - 1) as nat);
            lemma_mul_strict_inequality(hidden + fa, hidden + fb, shift);
            lemma_mul_inequality(0, hidden + fa, shift);
        }
    } else {
        let shift_b: int = pow2((eb - 1) as nat) as int;
        lemma_pow2_pos((eb - 1) as nat);
        // The least value with exponent field `eb` is the hidden bit, shifted.
        lemma_mul_inequality(hidden, hidden + fb, shift_b);
        assert(hidden * shift_b <= scaled_magnitude(b));
        if ea == 0 {
            lemma_mul_inequality(1, shift_b, hidden);
            assert(hidden * shift_b == shift_b * hidden) by (nonlinear_arith);
        } else {
            let shift_a: int = pow2((ea - 1) as nat) as int;
            lemma_pow2_pos((ea - 1) as nat);
            lemma_pow2_unfold(ea as nat);
            // Every value with exponent field `ea` lies below the hidden bit,
            // shifted once more.
            lemma_mul_strict_inequality(hidden + fa, 2 * hidden, shift_a);
            lemma_mul_inequality(0, hidden + fa, shift_a);
            assert((2 * hidden) * shift_a == hidden * (2 * shift_a)) by (nonlinear_arith);
            assert(scaled_magnitude(a) < hidden * pow2(ea as nat));
            if ea < eb - 1 {
                lemma_pow2_strictly_increases(ea as nat, (eb - 1) as nat);
            }
            assert(pow2(ea as nat) <= shift_b);
            lemma_mul_inequality(pow2(ea as nat) as int, shift_b, hidden);
            assert(hidden * pow2(ea as nat) == pow2(ea as nat) * hidden)
                by (nonlinear_arith);
            assert(hidden * shift_b == shift_b * hidden) by (nonlinear_arith);
        }
    }
}

/// The total order on patterns agrees with the order of the numbers they
/// stand for: a finite pattern that stands for the lesser of two numbers
/// comes first, and a pattern that comes first never stands for the greater
/// number. The two zeros, which stand for the same number, are the only
/// finite patterns that the numbers do not tell apart.
pub proof fn lemma_rank_orders_values(a: u64, b: u64)
    requires
        finite(a),
        finite(b),
    ensures
        scaled_value(a) < scaled_value(b) ==> rank(a) < rank(b),
        rank(a) <= rank(b) ==> scaled_value(a) <= scaled_value(b),
        scaled_value(a) == scaled_value(b) <==> a == b || (magnitude(a) == 0 && magnitude(b) == 0),
{
    if magnitude(a) < magnitude(b) {
        lemma_magnitude_orders_values(a, b);
    } else if magnitude(b) < magnitude(a) {
        lemma_magnitude_orders_values(b, a);
    }
    assert(magnitude(a) == 0 ==> scaled_magnitude(a) == 0);
    assert(magnitude(b) == 0 ==> scaled_magnitude(b) == 0);
    if magnitude(a) > 0 {
        lemma_zero_is_least(a);
    }
    if magnitude(b) > 0 {
        lemma_zero_is_least(b);
    }
}

/// A finite pattern with a magnitude other than zero stands for a number
/// other than zero.
proof fn lemma_zero_is_least(bits: u64)
    requires
        finite(bits),
        magnitude(bits) > 0,
    ensures
        scaled_magnitude(bits) > 0,
{
    let zero: u64 = 0;
    assert(magnitude(zero) == 0);
    assert(scaled_magnitude(zero) == 0);
    lemma_magnitude_orders_values(zero, bits);
}

/// The numbers behind the named patterns: `ONE` stands for one and
/// `NEGATIVE_ONE` for minus one, each 2 to the power of 1074 units. Both are
/// finite, and minus one comes first.
pub proof fn lemma_unit_values()
    ensures
        finite(ONE),
        finite(NEGATIVE_ONE),
        rank(NEGATIVE_ONE) < rank(ONE),
        scaled_value(ONE) == pow2(1074),
        scaled_value(NEGATIVE_ONE) == -(pow2(1074) as int),
{
    lemma2_to64_rest();
    lemma_pow2_adds(52, 1022);
    assert(exponent_field(ONE) == 1023 && fraction(ONE) == 0);
    assert(exponent_field(NEGATIVE_ONE) == 1023 && fraction(NEGATIVE_ONE) == 0);
}

} // verus!
