//! Integers of any size, as a sign and digits to the base of two to the power
//! of 32.

use crate::float64::{bit_length, nearest, Float64};
use num_bigint::BigInt;
use num_traits::ToPrimitive;
use vstd::arithmetic::power2::*;
use vstd::prelude::*;

verus! {

/// The base of the digits of a [`BigInteger`].
pub const BASE: u64 = 0x1_0000_0000;

/// The number that the digits stand for, the least significant one first.
pub open spec fn digits_value(digits: Seq<u32>) -> nat
    decreases digits.len(),
{
    if digits.len() == 0 {
        0
    } else {
        (digits[0] + BASE * digits_value(digits.drop_first())) as nat
    }
}

/// The character of a decimal digit.
pub open spec fn decimal_digit(d: nat) -> char {
    ('0' as nat + d) as char
}

/// The decimal digits of `n`, the most significant one first.
pub open spec fn decimal_digits(n: nat) -> Seq<char>
    decreases n,
{
    if n < 10 {
        seq![decimal_digit(n)]
    } else {
        decimal_digits(n / 10).push(decimal_digit(n % 10))
    }
}

/// The decimal text of `n`, with a minus sign before a negative number.
pub open spec fn decimal(n: int) -> Seq<char> {
    if n < 0 {
        seq!['-'] + decimal_digits((-n) as nat)
    } else {
        decimal_digits(n as nat)
    }
}

/// What `BigInt::from_str` reads out of a text, where it accepts the text.
pub uninterp spec fn parsed_integer(text: Seq<char>) -> Option<int>;

#[derive(Clone, Copy, Debug, PartialEq, Eq, Structural)]
pub enum Sign {
    Plus,
    Minus,
}

/// An integer of any size.
#[derive(Debug)]
pub struct BigInteger {
    pub sign: Sign,
    /// The digits of the absolute value, the least significant one first.
    pub magnitude: Vec<u32>,
}

impl View for BigInteger {
    type V = int;

    open spec fn view(&self) -> int {
        match self.sign {
            Sign::Plus => digits_value(self.magnitude@) as int,
            Sign::Minus => -(digits_value(self.magnitude@) as int),
        }
    }
}

impl Clone for BigInteger {
    fn clone(&self) -> (copy: BigInteger)
        ensures
            copy@ == self@,
    {
        let magnitude: Vec<u32> = self.magnitude.clone();
        assert(magnitude@ =~= self.magnitude@);
        BigInteger { sign: self.sign, magnitude }
    }
}

/// The integer in an optional [`BigInteger`].
pub open spec fn integer_in(n: Option<BigInteger>) -> Option<int> {
    match n {
        Some(n) => Some(n@),
        None => None,
    }
}

/// `BigInt`'s `==` on two integers, each given by its sign and digits: trusted
/// to hold exactly where they are the same integer.
#[verifier::external_body]
fn big_equal(a: &BigInteger, b: &BigInteger) -> (equal: bool)
    ensures
        equal == (a@ == b@),
{
    let left = match a.sign {
        Sign::Plus => BigInt::from_slice(num_bigint::Sign::Plus, &a.magnitude),
        Sign::Minus => BigInt::from_slice(num_bigint::Sign::Minus, &a.magnitude),
    };
    let right = match b.sign {
        Sign::Plus => BigInt::from_slice(num_bigint::Sign::Plus, &b.magnitude),
        Sign::Minus => BigInt::from_slice(num_bigint::Sign::Minus, &b.magnitude),
    };
    left == right
}

/// `BigInt::to_string` on an integer given by its sign and digits: trusted to
/// give its decimal text.
#[verifier::external_body]
fn big_text(a: &BigInteger) -> (text: String)
    ensures
        text@ == decimal(a@),
{
    let sign = match a.sign {
        Sign::Plus => num_bigint::Sign::Plus,
        Sign::Minus => num_bigint::Sign::Minus,
    };
    BigInt::from_slice(sign, &a.magnitude).to_string()
}

/// The integer `n` with only its 64 highest binary digits kept, the others made zero.
pub open spec fn high_digits(n: nat) -> nat {
    let digits = bit_length(n);
    if digits <= 64 {
        n
    } else {
        (n / pow2((digits - 64) as nat)) * pow2((digits - 64) as nat)
    }
}

/// The integer `n` with only the 64 highest binary digits of its magnitude kept.
pub open spec fn high_part(n: int) -> int {
    if n < 0 {
        -(high_digits((-n) as nat) as int)
    } else {
        high_digits(n as nat) as int
    }
}

/// The number of binary digits of the magnitude of an integer.
pub open spec fn digit_count(n: int) -> nat {
    if n < 0 {
        bit_length((-n) as nat)
    } else {
        bit_length(n as nat)
    }
}

/// Whether a float is the nearest one to an integer or, where the integer has more than 96
/// binary digits, to what its 64 highest binary digits stand for. These are one where the
/// integer is itself the value of a float.
pub open spec fn is_near(n: int, float: Float64) -> bool {
    float == nearest(n) || (digit_count(n) > 96 && float == nearest(high_part(n)))
}

/// `ToPrimitive::to_f64` of `BigInt` on an integer given by its sign and digits,
/// its result as a bit pattern: trusted to give the float nearest to the integer, ties to
/// even, where the integer has no more than 96 binary digits. Of a longer integer it does
/// not look at all of the lower digits: it is trusted to give the nearest float, or the one
/// nearest to what the 64 highest binary digits stand for. Which of the two is not stated,
/// for that is not the same on every machine.
#[verifier::external_body]
fn big_to_float(a: &BigInteger) -> (float: Option<Float64>)
    ensures
        float is Some,
        is_near(a@, float->0),
{
    let sign = match a.sign {
        Sign::Plus => num_bigint::Sign::Plus,
        Sign::Minus => num_bigint::Sign::Minus,
    };
    BigInt::from_slice(sign, &a.magnitude).to_f64().map(|v| Float64 { bits: v.to_bits() })
}

/// `BigInt::from_str`, its result as a sign and digits. What it makes of a text
/// is `parsed_integer`; it is trusted to read the decimal text of an integer as
/// that integer.
#[verifier::external_body]
fn big_parse(text: &str) -> (parsed: Option<BigInteger>)
    ensures
        integer_in(parsed) == parsed_integer(text@),
        forall|n: int| text@ == #[trigger] decimal(n) ==> integer_in(parsed) == Some(n),
{
    let (sign, magnitude) = text.parse::<BigInt>().ok()?.to_u32_digits();
    let sign = match sign {
        num_bigint::Sign::Minus => Sign::Minus,
        num_bigint::Sign::NoSign => Sign::Plus,
        num_bigint::Sign::Plus => Sign::Plus,
    };
    Some(BigInteger { sign, magnitude })
}

/// No digits of a number stand for more than all of them.
proof fn lemma_skipped_value(digits: Seq<u32>, k: int)
    requires
        0 <= k <= digits.len(),
    ensures
        digits_value(digits.skip(k)) <= digits_value(digits),
    decreases k,
{
    if k == 0 {
        assert(digits.skip(0) =~= digits);
    } else {
        lemma_skipped_value(digits.drop_first(), k - 1);
        assert(digits.drop_first().skip(k - 1) =~= digits.skip(k));
    }
}

/// Leading zeros shift the number that follows them.
proof fn lemma_shifted_value(k: nat, digits: Seq<u32>)
    ensures
        digits_value(Seq::new(k, |i: int| 0u32) + digits) == pow2(32 * k) * digits_value(digits),
    decreases k,
{
    let zeros = Seq::new(k, |i: int| 0u32);
    let all = zeros + digits;
    if k == 0 {
        lemma2_to64();
        assert(all =~= digits);
    } else {
        let rest = Seq::new((k - 1) as nat, |i: int| 0u32);
        lemma_shifted_value((k - 1) as nat, digits);
        assert(all.drop_first() =~= rest + digits);
        assert(all[0] == 0u32);
        lemma2_to64();
        lemma_pow2_adds(32, (32 * k - 32) as nat);
        vstd::arithmetic::mul::lemma_mul_is_associative(
            pow2(32) as int,
            pow2((32 * k - 32) as nat) as int,
            digits_value(digits) as int,
        );
    }
}

proof fn lemma_two_digits(lo: u32, hi: u32)
    ensures
        digits_value(seq![lo, hi]) == lo + BASE * hi,
{
    reveal_with_fuel(digits_value, 3);
    assert(seq![lo, hi].drop_first() =~= seq![hi]);
    assert(seq![hi].drop_first() =~= seq![]);
}

proof fn lemma_three_digits(lo: u32, mid: u32, hi: u32)
    ensures
        digits_value(seq![lo, mid, hi]) == lo + BASE * (mid + BASE * hi),
{
    lemma_two_digits(mid, hi);
    assert(seq![lo, mid, hi].drop_first() =~= seq![mid, hi]);
}

impl BigInteger {
    /// The absolute value, where it fits in 64 bits.
    pub fn magnitude_u64(&self) -> (m: Option<u64>)
        ensures
            m is Some <==> digits_value(self.magnitude@) <= u64::MAX,
            m matches Some(v) ==> v == digits_value(self.magnitude@),
    {
        let mut acc: u64 = 0;
        let mut i: usize = self.magnitude.len();
        let ghost digits = self.magnitude@;
        assert(digits.skip(i as int) =~= seq![]);
        while i > 0
            invariant
                i <= digits.len(),
                digits == self.magnitude@,
                acc == digits_value(digits.skip(i as int)),
            decreases i,
        {
            proof {
                let rest = digits.skip(i - 1);
                assert(rest.drop_first() =~= digits.skip(i as int));
                assert(rest[0] == digits[i - 1]);
                lemma_skipped_value(digits, i - 1);
            }
            i -= 1;
            let d: u32 = self.magnitude[i];
            if acc >= BASE {
                return None;
            }
            acc = acc * BASE + d as u64;
        }
        assert(digits.skip(0) =~= digits);
        Some(acc)
    }

    /// The integer as an `i64`, where it is one.
    pub fn to_i64(&self) -> (n: Option<i64>)
        ensures
            n is Some <==> i64::MIN <= self@ <= i64::MAX,
            n matches Some(v) ==> v == self@,
    {
        match (self.magnitude_u64(), self.sign) {
            (Some(m), Sign::Plus) => if m <= i64::MAX as u64 {
                Some(m as i64)
            } else {
                None
            },
            (Some(m), Sign::Minus) => if m <= i64::MAX as u64 {
                Some(-(m as i64))
            } else if m == 0x8000_0000_0000_0000 {
                Some(i64::MIN)
            } else {
                None
            },
            (None, _) => None,
        }
    }

    /// The integer as a `u64`, where it is one.
    pub fn to_u64(&self) -> (n: Option<u64>)
        ensures
            n is Some <==> 0 <= self@ <= u64::MAX,
            n matches Some(v) ==> v == self@,
    {
        match (self.magnitude_u64(), self.sign) {
            (Some(m), Sign::Plus) => Some(m),
            (Some(m), Sign::Minus) => if m == 0 {
                Some(0)
            } else {
                None
            },
            (None, _) => None,
        }
    }

    /// The integer with the given sign and absolute value.
    pub fn from_parts(sign: Sign, magnitude: u64) -> (n: BigInteger)
        ensures
            n@ == (match sign {
                Sign::Plus => magnitude as int,
                Sign::Minus => -(magnitude as int),
            }),
    {
        let lo: u32 = (magnitude % BASE) as u32;
        let hi: u32 = (magnitude / BASE) as u32;
        let digits: Vec<u32> = vec![lo, hi];
        proof {
            lemma_two_digits(lo, hi);
            assert(digits@ =~= seq![lo, hi]);
        }
        BigInteger { sign, magnitude: digits }
    }

    /// The integer `n`.
    pub fn from_i64(n: i64) -> (big: BigInteger)
        ensures
            big@ == n,
    {
        if n >= 0 {
            BigInteger::from_parts(Sign::Plus, n as u64)
        } else {
            BigInteger::from_parts(Sign::Minus, (-(n + 1)) as u64 + 1)
        }
    }

    /// The integer `n`.
    pub fn from_u64(n: u64) -> (big: BigInteger)
        ensures
            big@ == n,
    {
        BigInteger::from_parts(Sign::Plus, n)
    }

    /// The integer that a float stands for, where it is finite and without a
    /// fractional part.
    pub fn from_float(float: Float64) -> (n: Option<BigInteger>)
        ensures
            n is Some <==> float.spec_is_integral(),
            n matches Some(big) ==> float.spec_is_int(big@),
    {
        let (sign, significand, shift) = match float.integral_parts() {
            Some((negative, significand, shift)) => (
                if negative {
                    Sign::Minus
                } else {
                    Sign::Plus
                },
                significand,
                shift,
            ),
            None => {
                return None;
            },
        };
        let mut magnitude: Vec<u32> = Vec::new();
        let words: u64 = shift / 32;
        let mut k: u64 = 0;
        while k < words
            invariant
                k <= words,
                magnitude@ == Seq::new(k as nat, |i: int| 0u32),
            decreases words - k,
        {
            magnitude.push(0);
            k += 1;
            assert(magnitude@ =~= Seq::new(k as nat, |i: int| 0u32));
        }
        let within: u64 = shift % 32;
        let p: u128 = crate::float64::power_of_two(within);
        proof {
            lemma2_to64();
            lemma_pow2_strictly_increases(within as nat, 32);
            assert(0 <= significand * p < 0x1_0000_0000_0000_0000 * 0x1_0000_0000)
                by (nonlinear_arith)
                requires
                    0 <= significand < 0x1_0000_0000_0000_0000,
                    0 <= p <= 0x1_0000_0000,
            ;
        }
        let m: u128 = significand as u128 * p;
        let base: u128 = 0x1_0000_0000;
        let q: u128 = m / base;
        let lo: u32 = (m % base) as u32;
        let mid: u32 = (q % base) as u32;
        let hi: u32 = (q / base) as u32;
        magnitude.push(lo);
        magnitude.push(mid);
        magnitude.push(hi);
        proof {
            let zeros = Seq::new(words as nat, |i: int| 0u32);
            assert(magnitude@ =~= zeros + seq![lo, mid, hi]);
            lemma_shifted_value(words as nat, seq![lo, mid, hi]);
            lemma_three_digits(lo, mid, hi);
            assert(m == q * 0x1_0000_0000 + lo);
            assert(q == hi * 0x1_0000_0000 + mid);
            assert(digits_value(seq![lo, mid, hi]) == m);
            lemma_pow2_adds((32 * words) as nat, within as nat);
            assert(pow2((32 * words) as nat) * (significand * p) == significand * pow2(
                shift as nat,
            )) by (nonlinear_arith)
                requires
                    pow2(shift as nat) == pow2((32 * words) as nat) * p,
            ;
        }
        Some(BigInteger { sign, magnitude })
    }

    /// Whether the two are the same integer.
    pub fn equals(&self, other: &BigInteger) -> (equal: bool)
        ensures
            equal == (self@ == other@),
    {
        big_equal(self, other)
    }

    /// The decimal text of the integer.
    pub fn to_decimal(&self) -> (text: String)
        ensures
            text@ == decimal(self@),
    {
        big_text(self)
    }

    /// The float nearest to the integer or, where it has more than 96 binary digits, perhaps
    /// the one nearest to what its 64 highest stand for.
    pub fn to_float(&self) -> (float: Option<Float64>)
        ensures
            float is Some,
            is_near(self@, float->0),
    {
        big_to_float(self)
    }

    /// The integer that a text stands for, where it is one.
    pub fn parse(text: &str) -> (parsed: Option<BigInteger>)
        ensures
            integer_in(parsed) == parsed_integer(text@),
            forall|n: int| text@ == #[trigger] decimal(n) ==> integer_in(parsed) == Some(n),
    {
        big_parse(text)
    }
}

} // verus!
