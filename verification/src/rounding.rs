//! Laws of the conversion of integers to floats.

use crate::float64::{
    bit_length, nearest, nearest_magnitude, round_half_even, rounded_significand, scale_unit,
    Float64, EXPONENT_UNIT, INFINITY_BITS,
};
use crate::integer::{digit_count, high_digits, is_near};
use vstd::arithmetic::power2::*;
use vstd::prelude::*;

verus! {

/// How far two integers are apart.
pub open spec fn distance(a: int, b: int) -> int {
    if a <= b {
        b - a
    } else {
        a - b
    }
}

/// A positive integer lies between the powers of two that its number of binary digits
/// tells.
pub proof fn bit_length_bounds(n: nat)
    requires
        n > 0,
    ensures
        bit_length(n) > 0,
        pow2((bit_length(n) - 1) as nat) <= n < pow2(bit_length(n)),
    decreases n,
{
    lemma2_to64();
    if n > 1 {
        let half = n / 2;
        bit_length_bounds(half);
        lemma_pow2_unfold(bit_length(n));
        lemma_pow2_unfold((bit_length(n) - 1) as nat);
    } else {
        assert(bit_length(0) == 0);
    }
}

/// The powers of two between which a positive integer lies tell its number of binary
/// digits.
pub proof fn bit_length_unique(n: nat, digits: nat)
    requires
        digits > 0,
        pow2((digits - 1) as nat) <= n < pow2(digits),
    ensures
        bit_length(n) == digits,
{
    lemma_pow2_pos((digits - 1) as nat);
    bit_length_bounds(n);
    let found = bit_length(n);
    if found < digits {
        if found < digits - 1 {
            lemma_pow2_strictly_increases(found, (digits - 1) as nat);
        }
    } else if digits < found {
        if digits < found - 1 {
            lemma_pow2_strictly_increases(digits, (found - 1) as nat);
        }
    }
}

/// Rounding gives a nearest multiple of the unit.
proof fn lemma_round_half_even(n: nat, unit: nat, m: int)
    requires
        unit > 0,
    ensures
        n / unit <= round_half_even(n, unit) <= n / unit + 1,
        distance((round_half_even(n, unit) * unit) as int, n as int) <= distance(
            m * unit,
            n as int,
        ),
        round_half_even(n, unit) > n / unit ==> n % unit > 0,
{
    let (q, r) = ((n / unit) as int, (n % unit) as int);
    let d = unit as int;
    vstd::arithmetic::div_mod::lemma_fundamental_div_mod(n as int, d);
    assert(n == d * q + r);
    assert(0 <= r < d) by {
        vstd::arithmetic::div_mod::lemma_mod_bound(n as int, d);
    }
    assert((q + 1) * d == d * q + d) by (nonlinear_arith);
    assert(q * d == d * q) by (nonlinear_arith);
    if m <= q {
        assert(m * d <= d * q) by (nonlinear_arith)
            requires
                m <= q,
                d > 0,
        ;
    } else {
        assert(m * d >= d * q + d) by (nonlinear_arith)
            requires
                m >= q + 1,
                d > 0,
        ;
    }
}

/// The significand of a positive integer has 53 binary digits, or is the next power of
/// two.
pub proof fn significand_bounds(n: nat)
    requires
        n > 0,
    ensures
        EXPONENT_UNIT <= rounded_significand(n) <= 2 * EXPONENT_UNIT,
        bit_length(n) <= 53 ==> rounded_significand(n) < 2 * EXPONENT_UNIT,
{
    let digits = bit_length(n);
    bit_length_bounds(n);
    lemma2_to64_rest();
    if digits <= 53 {
        let p = pow2((53 - digits) as nat);
        lemma_pow2_pos((53 - digits) as nat);
        lemma_pow2_adds((53 - digits) as nat, digits);
        lemma_pow2_adds((53 - digits) as nat, (digits - 1) as nat);
        let (low, high) = (pow2((digits - 1) as nat), pow2(digits));
        assert(p * low <= n * p < p * high) by (nonlinear_arith)
            requires
                low <= n < high,
                p > 0,
        ;
    } else {
        let unit = pow2((digits - 53) as nat);
        lemma_pow2_pos((digits - 53) as nat);
        lemma_pow2_adds(53, (digits - 53) as nat);
        lemma_pow2_adds(52, (digits - 53) as nat);
        lemma_round_half_even(n, unit, 0);
        let q = (n / unit) as int;
        assert(EXPONENT_UNIT <= q < 2 * EXPONENT_UNIT) by {
            vstd::arithmetic::div_mod::lemma_fundamental_div_mod(n as int, unit as int);
            vstd::arithmetic::div_mod::lemma_mod_bound(n as int, unit as int);
            let r = (n % unit) as int;
            assert(EXPONENT_UNIT <= q < 2 * EXPONENT_UNIT) by (nonlinear_arith)
                requires
                    n == unit * q + r,
                    0 <= r < unit,
                    EXPONENT_UNIT * unit <= n < (2 * EXPONENT_UNIT) * unit,
            ;
        }
    }
}

/// The value of the float nearest to a positive integer.
proof fn lemma_nearest_scaled(n: nat)
    requires
        n > 0,
    ensures
        nearest(n as int).spec_is_finite() <==> nearest_magnitude(n) < INFINITY_BITS,
        nearest(-(n as int)).spec_is_finite() <==> nearest_magnitude(n) < INFINITY_BITS,
        nearest_magnitude(n) < INFINITY_BITS ==> {
            let value = rounded_significand(n) * pow2((1021 + bit_length(n)) as nat);
            nearest(n as int).spec_scaled() == value && nearest(-(n as int)).spec_scaled() == -value
        },
{
    let digits = bit_length(n);
    let significand = rounded_significand(n) as int;
    significand_bounds(n);
    let float = nearest(n as int);
    let negated = nearest(-(n as int));
    let pattern = (1021 + digits) * EXPONENT_UNIT + significand;
    if nearest_magnitude(n) < INFINITY_BITS {
        assert(float.spec_magnitude() == pattern);
        assert(negated.spec_magnitude() == pattern);
        let shift = (1021 + digits) as nat;
        if significand == 2 * EXPONENT_UNIT {
            assert(float.spec_exponent() == 1023 + digits);
            assert(float.spec_fraction() == 0);
            lemma_pow2_unfold((shift + 1) as nat);
            assert(EXPONENT_UNIT * pow2((shift + 1) as nat) == significand * pow2(shift))
                by (nonlinear_arith)
                requires
                    pow2((shift + 1) as nat) == 2 * pow2(shift),
                    significand == 2 * EXPONENT_UNIT,
            ;
        } else {
            assert(float.spec_exponent() == 1022 + digits);
            assert(float.spec_fraction() == significand - EXPONENT_UNIT);
        }
    }
}

/// No float is nearer to a positive integer than its rounded significand, shifted.
proof fn lemma_no_float_is_nearer(n: nat, s: int, k: nat, x: int)
    requires
        n > 0,
        0 <= s < 2 * EXPONENT_UNIT,
        x == s * pow2(k) || x == -(s * pow2(k)),
    ensures
        distance(
            (rounded_significand(n) * pow2((1021 + bit_length(n)) as nat)) as int,
            (n * scale_unit()) as int,
        ) <= distance(x, (n * scale_unit()) as int),
{
    let digits = bit_length(n);
    let unit = scale_unit() as int;
    let significand = rounded_significand(n) as int;
    let step = pow2((1021 + digits) as nat) as int;
    let target = n * unit;
    bit_length_bounds(n);
    lemma2_to64_rest();
    lemma_pow2_pos(1074);
    lemma_pow2_pos(k);
    lemma_pow2_pos((1021 + digits) as nat);
    if digits <= 53 {
        let p = pow2((53 - digits) as nat) as int;
        lemma_pow2_adds((53 - digits) as nat, (1021 + digits) as nat);
        assert((n * p) * step == n * (p * step)) by (nonlinear_arith);
    } else {
        let d = pow2((digits - 53) as nat) as int;
        lemma_pow2_pos((digits - 53) as nat);
        lemma_pow2_adds((digits - 53) as nat, 1074);
        assert(step == d * unit);
        // A multiple of the step that is no further away than `x`.
        let m: int = if k >= 1021 + digits {
            let more = pow2((k - (1021 + digits)) as nat) as int;
            lemma_pow2_adds((k - (1021 + digits)) as nat, (1021 + digits) as nat);
            assert(s * pow2(k) == (s * more) * step) by (nonlinear_arith)
                requires
                    pow2(k) == more * step,
            ;
            assert(-((s * more) * step) == (-(s * more)) * step) by (nonlinear_arith);
            if x == s * pow2(k) {
                s * more
            } else {
                -(s * more)
            }
        } else {
            EXPONENT_UNIT as int
        };
        if k < 1021 + digits {
            lemma_pow2_unfold((1021 + digits) as nat);
            let half = pow2((1020 + digits) as nat) as int;
            if k < 1020 + digits {
                lemma_pow2_strictly_increases(k, (1020 + digits) as nat);
            }
            assert(0 <= s * pow2(k) <= (2 * EXPONENT_UNIT) * half) by (nonlinear_arith)
                requires
                    0 <= s < 2 * EXPONENT_UNIT,
                    0 < pow2(k) <= half,
            ;
            assert((2 * EXPONENT_UNIT) * half == EXPONENT_UNIT * step) by (nonlinear_arith)
                requires
                    step == 2 * half,
            ;
            lemma_pow2_adds(52, (digits - 53) as nat);
            assert(EXPONENT_UNIT * step <= target) by (nonlinear_arith)
                requires
                    EXPONENT_UNIT * d <= n,
                    step == d * unit,
                    target == n * unit,
                    unit > 0,
            ;
            assert(x <= m * step <= target);
        } else {
            assert(x == m * step);
        }
        assert(distance(m * step, target) <= distance(x, target));
        lemma_round_half_even(n, d as nat, m);
        lemma_scaled_distance(significand * d, n as int, unit);
        lemma_scaled_distance(m * d, n as int, unit);
        assert((significand * d) * unit == significand * step) by (nonlinear_arith)
            requires
                step == d * unit,
        ;
        assert((m * d) * unit == m * step) by (nonlinear_arith)
            requires
                step == d * unit,
        ;
        let (near, far) = (distance(significand * d, n as int), distance(m * d, n as int));
        assert(near * unit <= far * unit) by (nonlinear_arith)
            requires
                near <= far,
                unit > 0,
        ;
    }
}

/// A common factor scales a distance.
proof fn lemma_scaled_distance(a: int, b: int, unit: int)
    requires
        unit > 0,
    ensures
        distance(a * unit, b * unit) == distance(a, b) * unit,
{
    if a <= b {
        assert(a * unit <= b * unit && b * unit - a * unit == (b - a) * unit) by (nonlinear_arith)
            requires
                a <= b,
                unit > 0,
        ;
    } else {
        assert(b * unit <= a * unit && a * unit - b * unit == (a - b) * unit) by (nonlinear_arith)
            requires
                b <= a,
                unit > 0,
        ;
    }
}

/// The parts of a finite float.
proof fn lemma_float_parts(float: Float64)
    requires
        float.spec_is_finite(),
    ensures
        0 <= float.spec_significand() < 2 * EXPONENT_UNIT,
        float.spec_shift() <= 2045,
{
}

/// No float is nearer to an integer than the one that the integer is converted to.
pub proof fn nearest_is_nearest(n: int, float: Float64)
    requires
        nearest(n).spec_is_finite(),
        float.spec_is_finite(),
    ensures
        distance(nearest(n).spec_scaled(), n * scale_unit()) <= distance(
            float.spec_scaled(),
            n * scale_unit(),
        ),
{
    let (s, k) = (float.spec_significand(), float.spec_shift());
    let x = float.spec_scaled();
    let unit = scale_unit() as int;
    lemma_float_parts(float);
    if n > 0 {
        lemma_nearest_scaled(n as nat);
        lemma_no_float_is_nearer(n as nat, s, k, x);
    } else if n < 0 {
        let m = (-n) as nat;
        lemma_nearest_scaled(m);
        lemma_no_float_is_nearer(m, s, k, -x);
        assert(m * unit == -(n * unit)) by (nonlinear_arith)
            requires
                m == -n,
        ;
        assert(distance(-x, m * unit) == distance(x, n * unit));
    } else {
        let zero = nearest(0);
        assert(zero.spec_significand() == 0);
        assert(0 * pow2(zero.spec_shift()) == 0);
        assert(zero.spec_scaled() == 0);
        assert(0 * unit == 0);
    }
}

/// An integer that is the value of some float is converted to that value.
pub proof fn nearest_is_exact(n: int, float: Float64)
    requires
        float.spec_is_int(n),
    ensures
        nearest(n).spec_is_int(n),
{
    if nearest(n).spec_is_finite() {
        nearest_is_nearest(n, float);
    } else {
        infinite_is_too_large(n, float);
    }
}

/// An integer is converted to an infinity only where it lies beyond every finite float.
pub proof fn infinite_is_too_large(n: int, float: Float64)
    requires
        !nearest(n).spec_is_finite(),
        float.spec_is_finite(),
    ensures
        n > 0 ==> float.spec_scaled() < n * scale_unit(),
        n < 0 ==> n * scale_unit() < float.spec_scaled(),
        n != 0,
{
    let zero = nearest(0);
    assert(zero.spec_exponent() == 0);
    let m = if n < 0 {
        (-n) as nat
    } else {
        n as nat
    };
    let (s, k) = (float.spec_significand(), float.spec_shift());
    let unit = scale_unit() as int;
    lemma_float_parts(float);
    lemma_nearest_scaled(m);
    significand_bounds(m);
    bit_length_bounds(m);
    lemma2_to64_rest();
    lemma_pow2_pos(k);
    lemma_pow2_pos(1074);
    let digits = bit_length(m);
    assert(digits >= 1024);
    // The largest finite float.
    let d = pow2(971) as int;
    lemma_pow2_pos(971);
    lemma_pow2_adds(971, 1074);
    if k < 2045 {
        lemma_pow2_strictly_increases(k, 2045);
    }
    let top = 2 * EXPONENT_UNIT - 1;
    assert(0 <= s * pow2(k) <= (top * d) * unit) by (nonlinear_arith)
        requires
            0 <= s <= top,
            0 < pow2(k) <= d * unit,
    ;
    assert(m > top * d) by {
        if digits > 1024 {
            lemma_pow2_adds(53, 971);
            if digits > 1025 {
                lemma_pow2_strictly_increases(1024, (digits - 1) as nat);
            }
            assert(top * d < (2 * EXPONENT_UNIT) * d) by (nonlinear_arith)
                requires
                    top < 2 * EXPONENT_UNIT,
                    d > 0,
            ;
        } else {
            lemma_round_half_even(m, d as nat, 0);
            let (q, r) = ((m as int) / d, (m as int) % d);
            vstd::arithmetic::div_mod::lemma_fundamental_div_mod(m as int, d);
            vstd::arithmetic::div_mod::lemma_mod_bound(m as int, d);
            assert(rounded_significand(m) == 2 * EXPONENT_UNIT);
            lemma_pow2_adds(53, 971);
            assert(q < 2 * EXPONENT_UNIT) by (nonlinear_arith)
                requires
                    m == d * q + r,
                    0 <= r,
                    m < (2 * EXPONENT_UNIT) * d,
                    d > 0,
            ;
            assert(q == top);
            assert(d * q == top * d) by (nonlinear_arith)
                requires
                    q == top,
            ;
        }
    }
    assert(m * unit > (top * d) * unit) by (nonlinear_arith)
        requires
            m > top * d,
            unit > 0,
    ;
    if n < 0 {
        assert(m * unit == -(n * unit)) by (nonlinear_arith)
            requires
                m == -n,
        ;
    }
}

/// Integers of up to 53 binary digits are converted exactly.
pub proof fn small_integers_are_exact(n: int)
    requires
        -pow2(53) <= n <= pow2(53),
    ensures
        nearest(n).spec_is_int(n),
{
    lemma2_to64_rest();
    if n == 0 {
        let zero = nearest(0);
        assert(zero.spec_significand() == 0);
        assert(0 * pow2(zero.spec_shift()) == 0);
    } else {
        let m = if n < 0 {
            (-n) as nat
        } else {
            n as nat
        };
        let unit = scale_unit() as int;
        let digits = bit_length(m);
        bit_length_bounds(m);
        significand_bounds(m);
        lemma_nearest_scaled(m);
        if digits > 54 {
            lemma_pow2_strictly_increases(53, (digits - 1) as nat);
        }
        let step = pow2((1021 + digits) as nat) as int;
        if digits <= 53 {
            let p = pow2((53 - digits) as nat) as int;
            lemma_pow2_adds((53 - digits) as nat, (1021 + digits) as nat);
            assert((m * p) * step == m * unit) by (nonlinear_arith)
                requires
                    p * step == unit,
            ;
        } else {
            lemma2_to64();
            lemma_pow2_adds(1, 1074);
            assert(m == pow2(53));
            assert(rounded_significand(m) == EXPONENT_UNIT);
            assert(EXPONENT_UNIT * step == m * unit) by (nonlinear_arith)
                requires
                    step == 2 * unit,
                    m == 2 * EXPONENT_UNIT,
            ;
        }
        if n < 0 {
            assert(m * unit == -(n * unit)) by (nonlinear_arith)
                requires
                    m == -n,
            ;
        }
    }
}

/// An integer that is the value of a float has only zeros below its 64 highest binary
/// digits.
proof fn lemma_high_digits(n: nat, s: int, k: nat)
    requires
        0 <= s < 2 * EXPONENT_UNIT,
        n * scale_unit() == s * pow2(k),
    ensures
        high_digits(n) == n,
{
    let digits = bit_length(n);
    if digits > 64 {
        let unit = scale_unit() as int;
        assert(bit_length(0) == 0);
        bit_length_bounds(n);
        lemma2_to64_rest();
        lemma_pow2_pos(1074);
        lemma_pow2_pos(k);
        lemma_pow2_adds((digits - 1) as nat, 1074);
        lemma_pow2_adds(53, k);
        let low = pow2((digits - 1) as nat) as int;
        assert(low * unit <= n * unit) by (nonlinear_arith)
            requires
                low <= n,
                unit > 0,
        ;
        assert(s * pow2(k) < pow2(53) * pow2(k)) by (nonlinear_arith)
            requires
                s < pow2(53),
                pow2(k) > 0,
        ;
        // So the float is shifted further than the digits that are dropped.
        assert(digits - 1 + 1074 < 53 + k) by {
            if 53 + k < digits - 1 + 1074 {
                lemma_pow2_strictly_increases((53 + k) as nat, (digits - 1 + 1074) as nat);
            }
        }
        let dropped = (digits - 64) as nat;
        let more = (k - 1074 - dropped) as nat;
        lemma_pow2_adds(more, dropped);
        lemma_pow2_adds((more + dropped) as nat, 1074);
        lemma_pow2_pos(dropped);
        let (p, d) = (pow2(more) as int, pow2(dropped) as int);
        assert(n == (s * p) * d) by (nonlinear_arith)
            requires
                n * unit == s * pow2(k),
                pow2(k) == (p * d) * unit,
                unit > 0,
        ;
        vstd::arithmetic::div_mod::lemma_div_multiples_vanish(s * p, d);
        assert(d * (s * p) == (s * p) * d) by (nonlinear_arith);
    }
}

/// An integer that is the value of some float is converted to that value, however many
/// of its digits are looked at.
pub proof fn near_is_exact(n: int, float: Float64, near: Float64)
    requires
        float.spec_is_int(n),
        is_near(n, near),
    ensures
        near == nearest(n),
        near.spec_is_int(n),
{
    let m = if n < 0 {
        (-n) as nat
    } else {
        n as nat
    };
    let unit = scale_unit() as int;
    let (s, k) = (float.spec_significand(), float.spec_shift());
    lemma_float_parts(float);
    lemma_pow2_pos(1074);
    lemma_pow2_pos(k);
    assert(s * pow2(k) >= 0) by (nonlinear_arith)
        requires
            s >= 0,
            pow2(k) > 0,
    ;
    if n < 0 {
        assert(m * unit == -(n * unit)) by (nonlinear_arith)
            requires
                m == -n,
        ;
        assert(m * unit > 0) by (nonlinear_arith)
            requires
                m > 0,
                unit > 0,
        ;
    } else {
        assert(n * unit >= 0) by (nonlinear_arith)
            requires
                n >= 0,
                unit > 0,
        ;
    }
    lemma_high_digits(m, s, k);
    nearest_is_exact(n, float);
}

/// An integer of no more than 96 binary digits is converted to the nearest float.
pub proof fn near_is_nearest_for_short(n: int, near: Float64)
    requires
        -pow2(96) < n < pow2(96),
        is_near(n, near),
    ensures
        near == nearest(n),
{
    if digit_count(n) > 96 {
        let m = if n < 0 {
            (-n) as nat
        } else {
            n as nat
        };
        bit_length_bounds(m);
        if bit_length(m) > 97 {
            lemma_pow2_strictly_increases(96, (bit_length(m) - 1) as nat);
        }
    }
}

} // verus!
