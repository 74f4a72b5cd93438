//! The float nearest to an integer of any size.

use crate::float64::{
    bit_length, digits_of, nearest, power_of_two, round_half_even, rounded_significand, Float64,
    EXPONENT_UNIT, INFINITY_BITS, SIGN_BIT,
};
use crate::integer::{digits_value, BigInteger, Sign, BASE};
use crate::rounding::{bit_length_unique, significand_bounds};
use vstd::arithmetic::div_mod::lemma_fundamental_div_mod_converse;
use vstd::arithmetic::power2::*;
use vstd::prelude::*;

verus! {

/// The number that digits stand for, from the lower digits and the others.
proof fn lemma_split_value(digits: Seq<u32>, k: nat)
    requires
        k <= digits.len(),
    ensures
        digits_value(digits) == digits_value(digits.take(k as int)) + pow2(32 * k) * digits_value(
            digits.skip(k as int),
        ),
        digits_value(digits.take(k as int)) < pow2(32 * k),
    decreases k,
{
    lemma2_to64();
    if k == 0 {
        assert(digits.skip(0) =~= digits);
        assert(digits.take(0) =~= Seq::empty());
        let v = digits_value(digits);
        assert(pow2(0) * v == v) by (nonlinear_arith)
            requires
                pow2(0) == 1,
        ;
    } else {
        let rest = digits.drop_first();
        let j = (k - 1) as nat;
        lemma_split_value(rest, j);
        assert(digits.take(k as int).drop_first() =~= rest.take(j as int));
        assert(rest.skip(j as int) =~= digits.skip(k as int));
        lemma_pow2_adds(32, 32 * j);
        let (low, high, p) = (
            digits_value(rest.take(j as int)) as int,
            digits_value(rest.skip(j as int)) as int,
            pow2(32 * j) as int,
        );
        assert(BASE * (low + p * high) == BASE * low + (BASE * p) * high) by (nonlinear_arith);
        assert(digits[0] + BASE * low < BASE * p) by (nonlinear_arith)
            requires
                digits[0] < BASE,
                low + 1 <= p,
        ;
    }
}

/// Digits stand for zero exactly where all of them are zero.
proof fn lemma_zero_digits(digits: Seq<u32>)
    ensures
        digits_value(digits) == 0 <==> forall|i: int|
            0 <= i < digits.len() ==> #[trigger] digits[i] == 0,
    decreases digits.len(),
{
    if digits.len() > 0 {
        let rest = digits.drop_first();
        lemma_zero_digits(rest);
        if digits_value(digits) == 0 {
            assert forall|i: int| 0 <= i < digits.len() implies #[trigger] digits[i] == 0 by {
                if i > 0 {
                    assert(rest[i - 1] == digits[i]);
                }
            }
        }
        if forall|i: int| 0 <= i < digits.len() ==> #[trigger] digits[i] == 0 {
            assert forall|i: int| 0 <= i < rest.len() implies #[trigger] rest[i] == 0 by {
                assert(rest[i] == digits[i + 1]);
            }
        }
    }
}

/// How an integer is rounded whose highest digits are `top`.
proof fn lemma_round_top(n: nat, top: nat, h: nat, k: nat, low: nat)
    requires
        n == top * pow2(k) + low,
        low < pow2(k),
        1 <= h <= 32,
        pow2(63 + h) <= top < pow2(64 + h),
    ensures
        bit_length(n) == 64 + h + k,
        ({
            let unit = pow2(11 + h);
            let (q, r) = (top / unit, top % unit);
            rounded_significand(n) == if 2 * r > unit || (2 * r == unit && (low > 0 || q % 2
                == 1)) {
                q + 1
            } else {
                q
            }
        }),
{
    let b = pow2(k) as int;
    let unit = pow2(11 + h) as int;
    let digits = (64 + h + k) as nat;
    lemma_pow2_pos(k);
    lemma_pow2_pos(11 + h);
    lemma_pow2_adds(63 + h, k);
    lemma_pow2_adds(64 + h, k);
    lemma_pow2_adds(11 + h, k);
    lemma_pow2_unfold(11 + h);
    let (least, most) = (pow2(63 + h) as int, pow2(64 + h) as int);
    assert(least * b <= n < most * b) by (nonlinear_arith)
        requires
            n == top * b + low,
            least <= top,
            top + 1 <= most,
            0 <= low < b,
    ;
    bit_length_unique(n, digits);
    let (q, r) = (top as int / unit, top as int % unit);
    vstd::arithmetic::div_mod::lemma_fundamental_div_mod(top as int, unit);
    vstd::arithmetic::div_mod::lemma_mod_bound(top as int, unit);
    let rest = r * b + low;
    assert(n == q * (unit * b) + rest) by (nonlinear_arith)
        requires
            n == top * b + low,
            top == unit * q + r,
            rest == r * b + low,
    ;
    assert(0 <= rest < unit * b) by (nonlinear_arith)
        requires
            rest == r * b + low,
            0 <= r,
            r + 1 <= unit,
            0 <= low < b,
    ;
    lemma_fundamental_div_mod_converse(n as int, unit * b, q, rest);
    let half = pow2((10 + h) as nat) as int;
    assert(unit == 2 * half);
    if r > half {
        assert(2 * rest > unit * b) by (nonlinear_arith)
            requires
                rest == r * b + low,
                r >= half + 1,
                unit == 2 * half,
                low >= 0,
                b > 0,
        ;
    } else if r == half {
        assert(2 * rest == unit * b + 2 * low) by (nonlinear_arith)
            requires
                rest == r * b + low,
                r == half,
                unit == 2 * half,
        ;
    } else {
        assert(2 * rest < unit * b) by (nonlinear_arith)
            requires
                rest == r * b + low,
                r + 1 <= half,
                unit == 2 * half,
                low < b,
        ;
    }
    assert(rounded_significand(n) == round_half_even(n, (unit * b) as nat));
}

/// A significand rounded from the highest digits and whether lower ones are not zero.
spec fn rounded_top(top: nat, h: nat, sticky: bool) -> nat {
    let unit = pow2(11 + h);
    let (q, r) = (top / unit, top % unit);
    if 2 * r > unit || (2 * r == unit && (sticky || q % 2 == 1)) {
        q + 1
    } else {
        q
    }
}

/// Rounds the highest digits to a significand.
fn round_top(top: u128, h: u64, sticky: bool) -> (significand: u64)
    requires
        1 <= h <= 32,
        pow2((63 + h) as nat) <= top < pow2((64 + h) as nat),
    ensures
        significand == rounded_top(top as nat, h as nat, sticky),
{
    let unit: u128 = power_of_two(11 + h);
    proof {
        lemma2_to64_rest();
        lemma_pow2_pos((11 + h) as nat);
        lemma_pow2_adds((11 + h) as nat, 53);
        if h < 32 {
            lemma_pow2_strictly_increases((11 + h) as nat, 43);
        }
        vstd::arithmetic::div_mod::lemma_fundamental_div_mod(top as int, unit as int);
        vstd::arithmetic::div_mod::lemma_mod_bound(top as int, unit as int);
        let (q, r) = (top as int / unit as int, top as int % unit as int);
        assert(q < pow2(53)) by (nonlinear_arith)
            requires
                top == unit * q + r,
                r >= 0,
                top < unit * pow2(53),
                unit > 0,
        ;
    }
    let q: u128 = top / unit;
    let r: u128 = top % unit;
    if 2 * r > unit || (2 * r == unit && (sticky || q % 2 == 1)) {
        (q + 1) as u64
    } else {
        q as u64
    }
}

/// Whether the lower digits stand for more than zero.
fn lower_digits_count(digits: &Vec<u32>, count: usize) -> (yes: bool)
    requires
        count <= digits@.len(),
    ensures
        yes <==> digits_value(digits@.take(count as int)) > 0,
{
    let ghost lower = digits@.take(count as int);
    proof {
        lemma_zero_digits(lower);
    }
    let mut i: usize = 0;
    while i < count
        invariant
            count <= digits@.len(),
            i <= count,
            lower == digits@.take(count as int),
            forall|j: int| 0 <= j < i ==> #[trigger] lower[j] == 0,
            digits_value(lower) == 0 <==> forall|j: int|
                0 <= j < lower.len() ==> #[trigger] lower[j] == 0,
        decreases count - i,
    {
        assert(lower[i as int] == digits@[i as int]);
        if digits[i] != 0 {
            return true;
        }
        i += 1;
    }
    false
}

/// The number of digits up to the highest one that is not zero.
fn significant_digits(digits: &Vec<u32>) -> (len: usize)
    ensures
        len <= digits@.len(),
        len > 0 ==> digits@[len - 1] != 0,
        digits_value(digits@) == digits_value(digits@.take(len as int)),
{
    let mut len: usize = digits.len();
    assert(digits@.take(len as int) =~= digits@);
    while len > 0 && digits[len - 1] == 0
        invariant
            len <= digits@.len(),
            digits_value(digits@) == digits_value(digits@.take(len as int)),
        decreases len,
    {
        proof {
            let taken = digits@.take(len as int);
            lemma_split_value(taken, (len - 1) as nat);
            assert(taken.take(len - 1) =~= digits@.take(len - 1));
            lemma_zero_digits(taken.skip(len - 1));
            assert(pow2((32 * (len - 1)) as nat) * 0 == 0);
        }
        len -= 1;
    }
    len
}

/// The number that digits stand for, from its three highest digits and the others.
proof fn lemma_top_value(digits: Seq<u32>, hi: u32, mid: u32, lo: u32)
    requires
        digits.len() >= 3,
        hi == digits[digits.len() - 1],
        mid == digits[digits.len() - 2],
        lo == digits[digits.len() - 3],
    ensures
        ({
            let k = (digits.len() - 3) as nat;
            let top = (hi * 0x1_0000_0000_0000_0000 + mid * 0x1_0000_0000 + lo) as nat;
            let low = digits_value(digits.take(k as int));
            digits_value(digits) == top * pow2(32 * k) + low && low < pow2(32 * k)
        }),
{
    let k = (digits.len() - 3) as nat;
    lemma_split_value(digits, k);
    let above = digits.skip(k as int);
    assert(above =~= seq![lo, mid, hi]);
    reveal_with_fuel(digits_value, 4);
    assert(above.drop_first() =~= seq![mid, hi]);
    assert(seq![mid, hi].drop_first() =~= seq![hi]);
    assert(seq![hi].drop_first() =~= seq![]);
    let top = (hi * 0x1_0000_0000_0000_0000 + mid * 0x1_0000_0000 + lo) as nat;
    assert(digits_value(above) == top);
    assert(pow2(32 * k) * top == top * pow2(32 * k)) by (nonlinear_arith);
}

/// The number of binary digits of the three highest digits.
proof fn lemma_top_bounds(hi: u32, mid: u32, lo: u32, h: nat, bound: nat)
    requires
        hi > 0,
        h > 0,
        bound == pow2(h),
        hi < bound <= 2 * hi,
    ensures
        h <= 32,
        ({
            let top = (hi * 0x1_0000_0000_0000_0000 + mid * 0x1_0000_0000 + lo) as nat;
            pow2((63 + h) as nat) <= top < pow2((64 + h) as nat)
        }),
{
    lemma2_to64();
    lemma2_to64_rest();
    if h > 33 {
        lemma_pow2_strictly_increases(33, h);
    }
    lemma_pow2_unfold(h);
    lemma_pow2_adds(64, h);
    lemma_pow2_adds(64, (h - 1) as nat);
}

impl BigInteger {
    /// The float nearest to the integer, ties to even; an infinity where that is too
    /// large.
    pub fn to_nearest(&self) -> (float: Float64)
        ensures
            float == nearest(self@),
    {
        let len: usize = significant_digits(&self.magnitude);
        let ghost digits = self.magnitude@;
        let ghost taken = digits.take(len as int);
        let ghost n = digits_value(digits);
        if len <= 2 {
            proof {
                lemma_split_value(taken, len as nat);
                assert(taken.take(len as int) =~= taken);
                lemma2_to64_rest();
                lemma2_to64();
            }
            let m: u64 = self.magnitude_u64().unwrap();
            return Float64::from_integer(self.sign == Sign::Minus && m > 0, m);
        }
        let hi: u32 = self.magnitude[len - 1];
        let mid: u32 = self.magnitude[len - 2];
        let lo: u32 = self.magnitude[len - 3];
        let top: u128 = hi as u128 * 0x1_0000_0000_0000_0000 + mid as u128 * 0x1_0000_0000
            + lo as u128;
        let (h, bound) = digits_of(hi as u64);
        let sticky = lower_digits_count(&self.magnitude, len - 3);
        proof {
            let k = (len - 3) as nat;
            lemma_top_value(taken, hi, mid, lo);
            assert(taken.take(len - 3) =~= digits.take(len - 3));
            lemma_top_bounds(hi, mid, lo, h as nat, bound as nat);
            lemma_round_top(
                n,
                top as nat,
                h as nat,
                32 * k,
                digits_value(digits.take(len - 3)),
            );
            assert(bit_length(n) == 32 * (len - 1) + h);
            assert(rounded_significand(n) == rounded_top(top as nat, h as nat, sticky));
            assert(n > 0) by {
                lemma_pow2_pos((bit_length(n) - 1) as nat);
                if n == 0 {
                    assert(bit_length(0) == 0);
                }
            }
            significand_bounds(n);
        }
        let magnitude: u64 = if len > 32 {
            INFINITY_BITS
        } else {
            let binary_digits: u64 = 32 * (len as u64 - 1) + h;
            let significand: u64 = round_top(top, h, sticky);
            let pattern: u64 = (1021 + binary_digits) * EXPONENT_UNIT + significand;
            if pattern < INFINITY_BITS {
                pattern
            } else {
                INFINITY_BITS
            }
        };
        if self.sign == Sign::Minus {
            Float64 { bits: SIGN_BIT + magnitude }
        } else {
            Float64 { bits: magnitude }
        }
    }
}

} // verus!
