//! Laws of floats: which number a bit pattern stands for, and how floats compare.

use crate::float64::{scale_unit, Float64, EXPONENT_UNIT, INFINITY_BITS, SIGN_BIT};
use vstd::arithmetic::power2::*;
use vstd::prelude::*;

verus! {

/// The floats from zero on are finite up to infinity, and each is followed by the next one: zero
/// is zero, and from one pattern to the next the value grows by two to the power that its
/// exponent field tells, in units of the smallest positive float.
pub proof fn a_pattern_is_followed_by_the_next_float(bits: u64)
    requires
        bits < INFINITY_BITS - 1,
    ensures
        (Float64 { bits: 0 }).spec_scaled() == 0,
        (Float64 { bits }).spec_is_finite(),
        (Float64 { bits: (bits + 1) as u64 }).spec_is_finite(),
        (Float64 { bits: (bits + 1) as u64 }).spec_scaled() == (Float64 { bits }).spec_scaled()
            + pow2(
            if bits / EXPONENT_UNIT == 0 {
                0
            } else {
                (bits / EXPONENT_UNIT - 1) as nat
            },
        ),
{
    let a = Float64 { bits };
    let b = Float64 { bits: (bits + 1) as u64 };
    let zero = Float64 { bits: 0 };
    assert(zero.spec_significand() == 0);
    assert(0 * pow2(zero.spec_shift()) == 0);
    let (s, t) = (a.spec_significand(), b.spec_significand());
    let (k, l) = (a.spec_shift(), b.spec_shift());
    let p = pow2(k) as int;
    if b.spec_fraction() == 0 && a.spec_exponent() > 0 {
        assert(b.spec_exponent() == a.spec_exponent() + 1);
        lemma_pow2_unfold(l);
        assert(l == k + 1);
        assert(s == 2 * EXPONENT_UNIT - 1);
        assert(t == EXPONENT_UNIT);
        assert(t * (2 * p) == s * p + p) by (nonlinear_arith)
            requires
                2 * t == s + 1,
        ;
    } else {
        assert(k == l);
        assert(t == s + 1);
        assert(t * p == s * p + p) by (nonlinear_arith)
            requires
                t == s + 1,
        ;
    }
}

/// The sign bit turns a value into its negation, and does not count for whether a float is
/// finite.
pub proof fn the_sign_bit_negates(bits: u64)
    requires
        bits < SIGN_BIT,
    ensures
        (Float64 { bits: (bits + SIGN_BIT) as u64 }).spec_scaled() == -(Float64 {
            bits,
        }).spec_scaled(),
        (Float64 { bits: (bits + SIGN_BIT) as u64 }).spec_is_finite() == (Float64 {
            bits,
        }).spec_is_finite(),
        (Float64 { bits }).spec_is_finite() <==> bits < INFINITY_BITS,
{
    let a = Float64 { bits };
    let b = Float64 { bits: (bits + SIGN_BIT) as u64 };
    assert(b.spec_magnitude() == a.spec_magnitude());
}

/// Finite floats are equal exactly where their values are, so that the two zeros are; a float that
/// is not finite equals no finite one.
pub proof fn floats_are_equal_by_value(a: Float64, b: Float64, equal: bool)
    requires
        call_ensures(Float64::equals, (a, b), equal),
    ensures
        a.spec_is_finite() && b.spec_is_finite() ==> equal == (a.spec_scaled()
            == b.spec_scaled()),
        a.spec_is_finite() != b.spec_is_finite() ==> !equal,
        a.spec_is_nan() || b.spec_is_nan() ==> !equal,
        !a.spec_is_finite() && !b.spec_is_finite() && !a.spec_is_nan() ==> equal == (a == b),
{
}

/// A float has the value of an integer of 64 bits exactly where its value is that integer.
pub proof fn a_float_equals_the_integer_of_its_value(
    float: Float64,
    negative: bool,
    magnitude: u64,
    equal: bool,
)
    requires
        call_ensures(Float64::equals_integer, (float, negative, magnitude), equal),
    ensures
        equal <==> float.spec_is_finite() && float.spec_scaled() == (if negative {
            -(magnitude as int)
        } else {
            magnitude as int
        }) * scale_unit(),
{
}

} // verus!
