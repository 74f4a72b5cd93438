//! Binary floating-point numbers of 64 bits, held as their bit pattern, and
//! exact comparison of them with integers.

use vstd::arithmetic::power2::*;
use vstd::prelude::*;

verus! {

/// The bits below the sign bit of an infinity.
pub const INFINITY_BITS: u64 = 0x7FF0_0000_0000_0000;

/// The weight of the sign bit.
pub const SIGN_BIT: u64 = 0x8000_0000_0000_0000;

/// The weight of the lowest bit of the exponent field, which is also the
/// implicit leading bit of a normal significand.
pub const EXPONENT_UNIT: u64 = 0x0010_0000_0000_0000;

/// The power of two by which every finite number becomes an integer.
pub open spec fn scale_unit() -> nat {
    pow2(1074)
}

/// A 64-bit float in the binary interchange format: a sign bit, eleven bits of
/// exponent and 52 bits of fraction.
#[derive(Clone, Copy, Debug, PartialEq, Eq, Structural)]
pub struct Float64 {
    pub bits: u64,
}

/// Two to the power of `k`.
pub fn power_of_two(k: u64) -> (p: u128)
    requires
        k <= 127,
    ensures
        p == pow2(k as nat),
{
    let mut p: u128 = 1;
    let mut i: u64 = 0;
    proof {
        lemma2_to64();
    }
    while i < k
        invariant
            i <= k <= 127,
            p == pow2(i as nat),
        decreases k - i,
    {
        proof {
            lemma_pow2_unfold((i + 1) as nat);
            lemma_pow2_bound(i as nat);
        }
        p = p * 2;
        i += 1;
    }
    p
}

/// The number of binary digits of `n`, and two to the power of it.
pub fn digits_of(n: u64) -> (r: (u64, u128))
    ensures
        r.0 == bit_length(n as nat),
        r.0 <= 64,
        n < r.1,
        r.1 == pow2(r.0 as nat),
        n > 0 ==> r.1 <= 2 * n && r.0 > 0,
{
    let mut digits: u64 = 0;
    let mut bound: u128 = 1;
    let mut rest: u64 = n;
    proof {
        lemma2_to64();
    }
    while rest > 0
        invariant
            digits + bit_length(rest as nat) == bit_length(n as nat),
            bound == pow2(digits as nat),
            digits <= 64,
            digits == 64 ==> bound == 0x1_0000_0000_0000_0000,
            rest * bound <= n < (rest + 1) * bound,
            n > 0 ==> rest > 0 || (bound <= 2 * n && digits > 0),
            bound <= 0x1_0000_0000_0000_0000,
        decreases rest,
    {
        proof {
            lemma_pow2_unfold((digits + 1) as nat);
            lemma2_to64_rest();
            assert(bound <= n) by (nonlinear_arith)
                requires
                    rest * bound <= n,
                    rest > 0,
                    bound >= 0,
            ;
            if digits + 1 < 64 {
                lemma_pow2_strictly_increases((digits + 1) as nat, 64);
            }
            let half = rest / 2;
            assert(half * (2 * bound) <= n < (half + 1) * (2 * bound)) by (nonlinear_arith)
                requires
                    rest * bound <= n < (rest + 1) * bound,
                    half == rest / 2,
                    bound >= 0,
            ;
        }
        rest = rest / 2;
        bound = bound * 2;
        digits += 1;
    }
    assert((rest + 1) * bound == bound) by (nonlinear_arith)
        requires
            rest == 0,
    ;
    (digits, bound)
}

proof fn lemma_quotient_bound(n: int, unit: int, limit: int)
    by (nonlinear_arith)
    requires
        n >= 0,
        unit > 0,
        n < unit * limit,
    ensures
        0 <= n / unit < limit,
{
}

/// Powers of two up to the 127th fit in 128 bits, with room for one doubling
/// below that.
proof fn lemma_pow2_bound(k: nat)
    requires
        k < 127,
    ensures
        2 * pow2(k) <= u128::MAX,
{
    lemma2_to64();
    lemma2_to64_rest();
    lemma_pow2_adds(63, 63);
    assert(pow2(126) == 0x8000_0000_0000_0000 * 0x8000_0000_0000_0000);
    if k < 126 {
        lemma_pow2_strictly_increases(k, 126);
    }
}

/// The number of binary digits of `n`.
pub open spec fn bit_length(n: nat) -> nat
    decreases n,
{
    if n == 0 {
        0
    } else {
        1 + bit_length(n / 2)
    }
}

/// `n` divided by `unit` and rounded to the nearest integer, ties to even.
pub open spec fn round_half_even(n: nat, unit: nat) -> nat {
    let (q, r) = (n / unit, n % unit);
    if 2 * r > unit || (2 * r == unit && q % 2 == 1) {
        q + 1
    } else {
        q
    }
}

/// The integer `n` scaled or rounded to a significand of 53 binary digits.
pub open spec fn rounded_significand(n: nat) -> nat {
    let digits = bit_length(n);
    if digits <= 53 {
        n * pow2((53 - digits) as nat)
    } else {
        round_half_even(n, pow2((digits - 53) as nat))
    }
}

/// The pattern of the float nearest to `n`, ties to even, and of infinity where
/// that float is too large.
pub open spec fn nearest_magnitude(n: nat) -> int {
    if n == 0 {
        0
    } else {
        let pattern = (1021 + bit_length(n)) * EXPONENT_UNIT + rounded_significand(n);
        if pattern < INFINITY_BITS {
            pattern
        } else {
            INFINITY_BITS as int
        }
    }
}

/// The float nearest to the integer `n`, ties to even: what a cast of an integer
/// to a float gives.
pub open spec fn nearest(n: int) -> Float64 {
    if n < 0 {
        Float64 { bits: (SIGN_BIT + nearest_magnitude((-n) as nat)) as u64 }
    } else {
        Float64 { bits: nearest_magnitude(n as nat) as u64 }
    }
}

impl Float64 {
    /// Whether the sign bit is set.
    pub open spec fn spec_is_negative(self) -> bool {
        self.bits >= SIGN_BIT
    }

    /// The pattern without the sign bit.
    pub open spec fn spec_magnitude(self) -> int {
        self.bits as int % SIGN_BIT as int
    }

    /// The exponent field.
    pub open spec fn spec_exponent(self) -> int {
        self.spec_magnitude() / EXPONENT_UNIT as int
    }

    /// The fraction field.
    pub open spec fn spec_fraction(self) -> int {
        self.spec_magnitude() % EXPONENT_UNIT as int
    }

    /// Whether this is a number, neither infinite nor NaN.
    pub open spec fn spec_is_finite(self) -> bool {
        self.spec_exponent() < 2047
    }

    pub open spec fn spec_is_nan(self) -> bool {
        self.spec_exponent() == 2047 && self.spec_fraction() != 0
    }

    /// The significand as an integer, with the implicit bit of a normal number.
    pub open spec fn spec_significand(self) -> int {
        if self.spec_exponent() == 0 {
            self.spec_fraction()
        } else {
            self.spec_fraction() + EXPONENT_UNIT as int
        }
    }

    /// How far the significand is shifted, in units of the smallest positive number.
    pub open spec fn spec_shift(self) -> nat {
        if self.spec_exponent() == 0 {
            0
        } else {
            (self.spec_exponent() - 1) as nat
        }
    }

    /// The value of a finite number in units of the smallest positive number,
    /// two to the power of minus 1074: always an integer.
    pub open spec fn spec_scaled(self) -> int {
        let magnitude = self.spec_significand() * pow2(self.spec_shift());
        if self.spec_is_negative() {
            -magnitude
        } else {
            magnitude
        }
    }

    /// Whether this is a finite number with the value of the integer `n`.
    pub open spec fn spec_is_int(self, n: int) -> bool {
        self.spec_is_finite() && self.spec_scaled() == n * scale_unit()
    }

    /// Whether this is a finite number without a fractional part.
    pub open spec fn spec_is_integral(self) -> bool {
        self.spec_is_finite() && self.spec_scaled() % (scale_unit() as int) == 0
    }

    /// Equality of floats: by value, the two zeros equal, a NaN equal to nothing.
    pub open spec fn spec_equals(self, other: Float64) -> bool {
        if self.spec_is_finite() && other.spec_is_finite() {
            self.spec_scaled() == other.spec_scaled()
        } else {
            self.bits == other.bits && !self.spec_is_nan()
        }
    }

    fn magnitude(self) -> (m: u64)
        ensures
            m == self.spec_magnitude(),
            m < SIGN_BIT,
    {
        self.bits % SIGN_BIT
    }

    fn exponent(self) -> (e: u64)
        ensures
            e == self.spec_exponent(),
            e <= 2047,
    {
        self.magnitude() / EXPONENT_UNIT
    }

    fn significand(self) -> (s: u64)
        ensures
            s == self.spec_significand(),
            s < 2 * EXPONENT_UNIT,
            self.spec_exponent() != 0 ==> s >= EXPONENT_UNIT,
    {
        let fraction: u64 = self.magnitude() % EXPONENT_UNIT;
        if self.exponent() == 0 {
            fraction
        } else {
            fraction + EXPONENT_UNIT
        }
    }

    fn shift(self) -> (k: u64)
        ensures
            k == self.spec_shift(),
            k <= 2046,
    {
        let exponent: u64 = self.exponent();
        if exponent == 0 {
            0
        } else {
            exponent - 1
        }
    }

    /// Whether the sign bit is set.
    pub fn is_negative(self) -> (negative: bool)
        ensures
            negative == self.spec_is_negative(),
    {
        self.bits >= SIGN_BIT
    }

    /// Whether this is a number, neither infinite nor NaN.
    pub fn is_finite(self) -> (finite: bool)
        ensures
            finite == self.spec_is_finite(),
    {
        self.exponent() < 2047
    }

    /// Whether this is the number `magnitude`, or its negation where `negative` is set.
    pub fn equals_integer(self, negative: bool, magnitude: u64) -> (equal: bool)
        ensures
            equal == self.spec_is_int(
                if negative {
                    -(magnitude as int)
                } else {
                    magnitude as int
                },
            ),
    {
        if !self.is_finite() {
            return false;
        }
        let significand: u64 = self.significand();
        let shift: u64 = self.shift();
        proof {
            lemma_pow2_pos(1074);
            lemma_pow2_pos(shift as nat);
            lemma_product_sign(significand as int, pow2(shift as nat) as int);
            lemma_product_sign(magnitude as int, scale_unit() as int);
            assert((-(magnitude as int)) * scale_unit() == -(magnitude * scale_unit()))
                by (nonlinear_arith);
        }
        if magnitude == 0 || significand == 0 {
            return magnitude == 0 && significand == 0;
        }
        if negative != self.is_negative() {
            return false;
        }
        if shift >= 1074 {
            let up: u64 = shift - 1074;
            proof {
                lemma_pow2_adds(up as nat, 1074);
                lemma_cancel(
                    significand as int * pow2(up as nat),
                    magnitude as int,
                    scale_unit() as int,
                );
                assert(significand * pow2(shift as nat) == significand * pow2(up as nat)
                    * scale_unit())
                    by (nonlinear_arith)
                    requires
                        pow2(shift as nat) == pow2(up as nat) * scale_unit(),
                ;
            }
            if up >= 64 {
                proof {
                    lemma_too_large(significand as int, up as nat);
                }
                return false;
            }
            let p: u128 = power_of_two(up);
            proof {
                lemma_word_product(significand, up as nat);
            }
            significand as u128 * p == magnitude as u128
        } else {
            let down: u64 = 1074 - shift;
            proof {
                lemma_pow2_adds(down as nat, shift as nat);
                lemma_cancel(
                    significand as int,
                    magnitude as int * pow2(down as nat),
                    pow2(shift as nat) as int,
                );
                assert(magnitude * scale_unit() == magnitude * pow2(down as nat) * pow2(
                    shift as nat,
                ))
                    by (nonlinear_arith)
                    requires
                        scale_unit() == pow2(down as nat) * pow2(shift as nat),
                ;
            }
            if down >= 64 {
                proof {
                    lemma_too_large(magnitude as int, down as nat);
                }
                return false;
            }
            let p: u128 = power_of_two(down);
            proof {
                lemma_word_product(magnitude, down as nat);
            }
            significand as u128 == magnitude as u128 * p
        }
    }

    /// Whether this is a finite number without a fractional part.
    pub fn is_integral(self) -> (integral: bool)
        ensures
            integral == self.spec_is_integral(),
    {
        if !self.is_finite() {
            return false;
        }
        let significand: u64 = self.significand();
        let shift: u64 = self.shift();
        let ghost magnitude = significand * pow2(shift as nat);
        proof {
            lemma_pow2_pos(1074);
            lemma_pow2_pos(shift as nat);
            lemma_mod_of_negation(magnitude as int, scale_unit() as int);
            lemma_product_sign(significand as int, pow2(shift as nat) as int);
            vstd::arithmetic::div_mod::lemma_small_mod(0, scale_unit());
        }
        if significand == 0 {
            return true;
        }
        if shift >= 1074 {
            proof {
                let up = (shift - 1074) as nat;
                lemma_pow2_adds(up, 1074);
                assert(significand * pow2(shift as nat) == (significand * pow2(up)) * scale_unit())
                    by (nonlinear_arith)
                    requires
                        pow2(shift as nat) == pow2(up) * scale_unit(),
                ;
                vstd::arithmetic::div_mod::lemma_mod_multiples_basic(
                    significand * pow2(up),
                    scale_unit() as int,
                );
            }
            return true;
        }
        let down: u64 = 1074 - shift;
        proof {
            lemma_pow2_adds(down as nat, shift as nat);
            lemma_pow2_pos(down as nat);
            lemma_pow2_pos(shift as nat);
            lemma_mod_of_common_factor(
                significand as int,
                pow2(down as nat) as int,
                pow2(shift as nat) as int,
            );
        }
        if down >= 53 {
            proof {
                lemma2_to64_rest();
                if down > 53 {
                    lemma_pow2_strictly_increases(53, down as nat);
                }
                vstd::arithmetic::div_mod::lemma_small_mod(
                    significand as nat,
                    pow2(down as nat),
                );
            }
            return false;
        }
        let p: u128 = power_of_two(down);
        significand as u128 % p == 0
    }

    /// The integer that a finite number without a fractional part stands for: its
    /// sign, and its absolute value as a word and the number of bits by which that
    /// is shifted to the left.
    pub fn integral_parts(self) -> (parts: Option<(bool, u64, u64)>)
        ensures
            parts is Some <==> self.spec_is_integral(),
            parts matches Some((negative, word, shift)) ==> shift <= 2046 && self.spec_is_int(
                if negative {
                    -(word * pow2(shift as nat))
                } else {
                    word * pow2(shift as nat)
                },
            ),
    {
        if !self.is_integral() {
            return None;
        }
        let significand: u64 = self.significand();
        let shift: u64 = self.shift();
        let negative: bool = self.is_negative();
        proof {
            lemma_pow2_pos(shift as nat);
            lemma_pow2_pos(1074);
            lemma2_to64();
        }
        if shift >= 1074 {
            let up: u64 = shift - 1074;
            proof {
                lemma_pow2_adds(up as nat, 1074);
                let (s, u, p) = (significand as int, pow2(up as nat) as int, scale_unit() as int);
                assert(s * (u * p) == (s * u) * p && -(s * (u * p)) == (-(s * u)) * p)
                    by (nonlinear_arith);
            }
            return Some((negative, significand, up));
        }
        if significand == 0 {
            assert(0 * pow2(shift as nat) == 0 && 0 * scale_unit() == 0) by (nonlinear_arith);
            return Some((false, 0, 0));
        }
        let down: u64 = 1074 - shift;
        proof {
            lemma_pow2_adds(down as nat, shift as nat);
            lemma_pow2_pos(down as nat);
            let magnitude = significand * pow2(shift as nat);
            lemma_mod_of_negation(magnitude as int, scale_unit() as int);
            lemma_mod_of_common_factor(
                significand as int,
                pow2(down as nat) as int,
                pow2(shift as nat) as int,
            );
            lemma2_to64_rest();
            if down > 53 {
                lemma_pow2_strictly_increases(53, down as nat);
            }
            if down >= 53 {
                vstd::arithmetic::div_mod::lemma_small_mod(
                    significand as nat,
                    pow2(down as nat),
                );
            }
            vstd::arithmetic::div_mod::lemma_fundamental_div_mod(
                significand as int,
                pow2(down as nat) as int,
            );
            let (q, d, s) = (
                significand as int / pow2(down as nat) as int,
                pow2(down as nat) as int,
                pow2(shift as nat) as int,
            );
            assert((d * q) * s == q * (d * s) && -((d * q) * s) == (-q) * (d * s))
                by (nonlinear_arith);
            assert(0 <= q <= significand) by (nonlinear_arith)
                requires
                    significand == d * q,
                    d > 0,
                    significand > 0,
            ;
            assert(q * 1 == q);
        }
        let p: u128 = power_of_two(down);
        let word: u64 = (significand as u128 / p) as u64;
        Some((negative, word, 0))
    }

    /// Equality of floats: by value, the two zeros equal, a NaN equal to nothing.
    pub fn equals(self, other: Float64) -> (equal: bool)
        ensures
            equal == self.spec_equals(other),
    {
        let a: u64 = self.magnitude();
        let b: u64 = other.magnitude();
        proof {
            if self.spec_is_finite() && other.spec_is_finite() {
                lemma_scaled_is_injective(self, other);
            }
        }
        if a == 0 && b == 0 {
            return true;
        }
        self.bits == other.bits && a <= INFINITY_BITS
    }

    /// The float nearest to `magnitude`, or to its negation where `negative` is
    /// set, ties to even.
    pub fn from_integer(negative: bool, magnitude: u64) -> (float: Float64)
        requires
            negative ==> magnitude > 0,
        ensures
            float == nearest(if negative { -(magnitude as int) } else { magnitude as int }),
    {
        if magnitude == 0 {
            return Float64 { bits: 0 };
        }
        let (digits, bound) = digits_of(magnitude);
        let significand: u64 = if digits <= 53 {
            let p: u128 = power_of_two(53 - digits);
            proof {
                lemma2_to64_rest();
                lemma_pow2_adds((53 - digits) as nat, digits as nat);
                lemma_pow2_pos((53 - digits) as nat);
                assert(magnitude * p < pow2(53)) by (nonlinear_arith)
                    requires
                        magnitude < bound,
                        p * bound == pow2(53),
                        p > 0,
                ;
            }
            (magnitude as u128 * p) as u64
        } else {
            let unit: u128 = power_of_two(digits - 53);
            proof {
                lemma2_to64_rest();
                lemma_pow2_adds(53, (digits - 53) as nat);
                lemma_pow2_pos((digits - 53) as nat);
                lemma_pow2_strictly_increases((digits - 53) as nat, 12);
                lemma2_to64();
                lemma_quotient_bound(magnitude as int, unit as int, pow2(53) as int);
            }
            let q: u128 = magnitude as u128 / unit;
            let r: u128 = magnitude as u128 % unit;
            if 2 * r > unit || (2 * r == unit && q % 2 == 1) {
                (q + 1) as u64
            } else {
                q as u64
            }
        };
        proof {
            lemma2_to64_rest();
        }
        let pattern: u64 = (1021 + digits) * EXPONENT_UNIT + significand;
        if negative {
            Float64 { bits: SIGN_BIT + pattern }
        } else {
            Float64 { bits: pattern }
        }
    }

    /// The float nearest to `n`, ties to even.
    pub fn from_i64(n: i64) -> (float: Float64)
        ensures
            float == nearest(n as int),
    {
        if n < 0 {
            Float64::from_integer(true, (-(n + 1)) as u64 + 1)
        } else {
            Float64::from_integer(false, n as u64)
        }
    }
}

proof fn lemma_product_sign(a: int, b: int)
    by (nonlinear_arith)
    requires
        a >= 0,
        b > 0,
    ensures
        a * b >= 0,
        a * b == 0 <==> a == 0,
{
}

proof fn lemma_cancel(a: int, b: int, c: int)
    by (nonlinear_arith)
    requires
        c > 0,
    ensures
        a * c == b * c <==> a == b,
{
}

/// A positive number shifted by 64 bits or more exceeds every 64-bit word.
proof fn lemma_too_large(a: int, k: nat)
    requires
        a >= 1,
        k >= 64,
    ensures
        a * pow2(k) > u64::MAX,
{
    lemma2_to64_rest();
    if k > 64 {
        lemma_pow2_strictly_increases(64, k);
    }
    assert(a * pow2(k) >= pow2(k)) by (nonlinear_arith)
        requires
            a >= 1,
    ;
}

/// A 64-bit word shifted by less than 64 bits fits in 128 bits.
proof fn lemma_word_product(a: u64, k: nat)
    requires
        k < 64,
    ensures
        0 <= a * pow2(k) <= u128::MAX,
{
    lemma2_to64_rest();
    lemma_pow2_strictly_increases(k, 64);
    assert(0 <= a * pow2(k) <= u128::MAX) by (nonlinear_arith)
        requires
            0 <= a <= u64::MAX,
            pow2(k) <= 0x1_0000_0000_0000_0000,
    ;
}

proof fn lemma_mod_of_negation(a: int, m: int)
    requires
        m > 0,
    ensures
        (-a) % m == 0 <==> a % m == 0,
{
    vstd::arithmetic::div_mod::lemma_fundamental_div_mod(a, m);
    vstd::arithmetic::div_mod::lemma_fundamental_div_mod(-a, m);
    if a % m == 0 {
        assert(-a == (-(a / m)) * m) by (nonlinear_arith)
            requires
                a == m * (a / m),
        ;
        vstd::arithmetic::div_mod::lemma_mod_multiples_basic(-(a / m), m);
    }
    if (-a) % m == 0 {
        assert(a == (-((-a) / m)) * m) by (nonlinear_arith)
            requires
                -a == m * ((-a) / m),
        ;
        vstd::arithmetic::div_mod::lemma_mod_multiples_basic(-((-a) / m), m);
    }
}

proof fn lemma_mod_of_common_factor(a: int, m: int, c: int)
    requires
        m > 0,
        c > 0,
    ensures
        (a * c) % (m * c) == 0 <==> a % m == 0,
{
    lemma_product_sign(m, c);
    vstd::arithmetic::div_mod::lemma_fundamental_div_mod(a, m);
    vstd::arithmetic::div_mod::lemma_fundamental_div_mod(a * c, m * c);
    if a % m == 0 {
        assert(a * c == (a / m) * (m * c)) by (nonlinear_arith)
            requires
                a == m * (a / m),
        ;
        vstd::arithmetic::div_mod::lemma_mod_multiples_basic(a / m, m * c);
    }
    if (a * c) % (m * c) == 0 {
        let q = (a * c) / (m * c);
        assert(a * c == (q * m) * c) by (nonlinear_arith)
            requires
                a * c == (m * c) * q,
        ;
        lemma_cancel(a, q * m, c);
        vstd::arithmetic::div_mod::lemma_mod_multiples_basic(q, m);
    }
}

/// Two finite numbers of one value have one pattern, unless both are zeros.
proof fn lemma_scaled_is_injective(a: Float64, b: Float64)
    requires
        a.spec_is_finite(),
        b.spec_is_finite(),
    ensures
        a.spec_scaled() == b.spec_scaled() <==> a.bits == b.bits || (a.spec_magnitude() == 0
            && b.spec_magnitude() == 0),
{
    let (s, k) = (a.spec_significand(), a.spec_shift());
    let (t, j) = (b.spec_significand(), b.spec_shift());
    lemma_pow2_pos(k);
    lemma_pow2_pos(j);
    lemma_product_sign(s, pow2(k) as int);
    lemma_product_sign(t, pow2(j) as int);
    if a.spec_scaled() == b.spec_scaled() && s != 0 {
        assert(s * pow2(k) == t * pow2(j));
        if k == j {
            lemma_cancel(s, t, pow2(k) as int);
        } else if k < j {
            lemma_shifts_differ(s, k, t, j);
        } else {
            lemma_shifts_differ(t, j, s, k);
        }
    }
}

proof fn lemma_shifts_differ(s: int, k: nat, t: int, j: nat)
    requires
        k < j,
        s < 2 * EXPONENT_UNIT,
        t >= EXPONENT_UNIT,
    ensures
        s * pow2(k) != t * pow2(j),
{
    lemma_pow2_pos(k);
    lemma_pow2_adds((j - k) as nat, k);
    lemma_pow2_unfold((j - k) as nat);
    lemma_pow2_pos((j - k - 1) as nat);
    let p = pow2((j - k) as nat) as int;
    assert(t * pow2(j) == (t * p) * pow2(k)) by (nonlinear_arith)
        requires
            pow2(j) == p * pow2(k),
    ;
    assert(t * p >= 2 * EXPONENT_UNIT) by (nonlinear_arith)
        requires
            p >= 2,
            t >= EXPONENT_UNIT,
    ;
    lemma_cancel(s, t * p, pow2(k) as int);
}

/// A float stands for one integer at most, and then has no fractional part.
pub proof fn is_int_unique(float: Float64, a: int, b: int)
    requires
        float.spec_is_int(a),
    ensures
        float.spec_is_integral(),
        float.spec_is_int(b) ==> a == b,
{
    lemma_pow2_pos(1074);
    let unit = scale_unit() as int;
    assert((a * unit) % unit == 0) by (nonlinear_arith)
        requires
            unit > 0,
    ;
    if float.spec_is_int(b) {
        assert(a == b) by (nonlinear_arith)
            requires
                unit > 0,
                a * unit == b * unit,
        ;
    }
}

} // verus!
