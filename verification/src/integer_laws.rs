//! Laws of integers of any size: which integer the digits stand for, and how conversions go there
//! and back.

use crate::float64::{scale_unit, Float64};
use crate::integer::{digits_value, BigInteger, Sign, BASE};
use vstd::arithmetic::power::*;
use vstd::prelude::*;

verus! {

/// A further digit at the upper end weighs as much as the base to the power of the number of
/// digits below it.
proof fn lemma_upper_digit(digits: Seq<u32>, digit: u32)
    ensures
        digits_value(digits.push(digit)) == digits_value(digits) + digit * pow(
            BASE as int,
            digits.len(),
        ),
    decreases digits.len(),
{
    lemma_pow0(BASE as int);
    let all = digits.push(digit);
    if digits.len() == 0 {
        assert(all.drop_first() =~= Seq::empty());
        assert(digits_value(Seq::empty()) == 0);
        assert(digit * 1 == digit);
    } else {
        let rest = digits.drop_first();
        lemma_upper_digit(rest, digit);
        assert(all.drop_first() =~= rest.push(digit));
        let (v, p) = (digits_value(rest) as int, pow(BASE as int, rest.len()));
        reveal(pow);
        assert(pow(BASE as int, digits.len()) == BASE * p);
        assert(BASE * (v + digit * p) == BASE * v + digit * (BASE * p)) by (nonlinear_arith);
    }
}

/// The digits stand for an integer in base two to the power of 32, the least significant one
/// first, and the sign minus turns it into its negation.
pub proof fn each_digit_has_its_weight(a: BigInteger, b: BigInteger, digit: u32)
    requires
        a.sign == Sign::Plus,
        b.sign == Sign::Plus,
        b.magnitude@ == a.magnitude@.push(digit),
    ensures
        a.magnitude@.len() == 0 ==> a@ == 0,
        b@ == a@ + digit * pow(0x1_0000_0000, a.magnitude@.len()),
        forall|c: BigInteger|
            c.sign == Sign::Minus && c.magnitude@ == a.magnitude@ ==> #[trigger] c@ == -a@,
{
    lemma_upper_digit(a.magnitude@, digit);
}

/// A machine integer made into an integer of any size is converted back to itself, and nothing
/// else is converted to it.
pub proof fn words_are_converted_there_and_back(
    n: i64,
    m: u64,
    big: BigInteger,
    to_i64: Option<i64>,
    to_u64: Option<u64>,
)
    requires
        call_ensures(BigInteger::to_i64, (&big,), to_i64),
        call_ensures(BigInteger::to_u64, (&big,), to_u64),
    ensures
        call_ensures(BigInteger::from_i64, (n,), big) ==> to_i64 == Some(n),
        call_ensures(BigInteger::from_u64, (m,), big) ==> to_u64 == Some(m),
        to_i64 is Some <==> i64::MIN <= big@ <= i64::MAX,
        to_i64 is Some ==> to_i64->0 == big@,
        to_u64 is Some <==> 0 <= big@ <= u64::MAX,
        to_u64 is Some ==> to_u64->0 == big@,
{
}

/// A float without a fractional part is made into the integer of its value, and no other float is
/// made into one.
pub proof fn a_float_is_made_into_the_integer_of_its_value(
    float: Float64,
    made: Option<BigInteger>,
    n: int,
)
    requires
        call_ensures(BigInteger::from_float, (float,), made),
    ensures
        made is Some ==> float.spec_is_finite() && float.spec_scaled() == made->0@ * scale_unit(),
        made is None ==> !(float.spec_is_finite() && float.spec_scaled() == n * scale_unit()),
{
    if float.spec_is_int(n) {
        crate::float64::is_int_unique(float, n, n);
    }
}

} // verus!
