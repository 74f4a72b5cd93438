//! Laws of the conversions of numbers: what the results of calls have to do with the number
//! that is converted, and with one another.

use crate::float64::{bit_length, is_int_unique, nearest, scale_unit, Float64};
use crate::instance::InstanceRef;
use crate::number::NumberRef;
use crate::rounding::{
    bit_length_bounds, distance, infinite_is_too_large, near_is_exact, near_is_nearest_for_short,
    nearest_is_exact, nearest_is_nearest, significand_bounds, small_integers_are_exact,
};
use crate::value::Num;
use vstd::arithmetic::power2::*;
use vstd::prelude::*;

verus! {

/// The float nearest to an integer of no more than 96 binary digits is finite.
proof fn lemma_nearest_is_finite(n: int)
    requires
        -pow2(96) < n < pow2(96),
    ensures
        nearest(n).spec_is_finite(),
{
    let m = if n < 0 {
        (-n) as nat
    } else {
        n as nat
    };
    if m > 0 {
        bit_length_bounds(m);
        significand_bounds(m);
        if bit_length(m) > 97 {
            lemma_pow2_strictly_increases(96, (bit_length(m) - 1) as nat);
        }
    }
}

/// An integer of 64 bits has no more than 96 binary digits.
proof fn lemma_word_is_short(n: int)
    requires
        i64::MIN <= n <= u64::MAX,
    ensures
        -pow2(96) < n < pow2(96),
{
    lemma2_to64_rest();
    lemma_pow2_strictly_increases(64, 96);
}

/// An integer of no more than 96 binary digits, however it is held, is converted to a finite
/// float, and no other finite float is nearer to it.
pub proof fn no_float_is_nearer_to_a_short_integer(
    number: NumberRef<'_>,
    n: int,
    float: Option<Float64>,
    other: Float64,
)
    requires
        number.wf(),
        number@ == Num::Int(n),
        -pow2(96) < n < pow2(96),
        call_ensures(NumberRef::as_f64, (number,), float),
        other.spec_is_finite(),
    ensures
        float is Some,
        float->0.spec_is_finite(),
        distance(float->0.spec_scaled(), n * scale_unit()) <= distance(
            other.spec_scaled(),
            n * scale_unit(),
        ),
{
    lemma_nearest_is_finite(n);
    nearest_is_nearest(n, other);
    if number is BigInteger {
        near_is_nearest_for_short(n, float->0);
    }
}

/// An integer that is the value of some float, however it is held, is converted to a float of
/// that value.
pub proof fn an_exact_integer_is_converted_exactly(
    number: NumberRef<'_>,
    n: int,
    float: Option<Float64>,
    exact: Float64,
)
    requires
        number.wf(),
        number@ == Num::Int(n),
        call_ensures(NumberRef::as_f64, (number,), float),
        exact.spec_is_int(n),
    ensures
        float is Some,
        float->0.spec_is_finite(),
        float->0.spec_scaled() == n * scale_unit(),
{
    nearest_is_exact(n, exact);
    if number is BigInteger {
        near_is_exact(n, exact, float->0);
    }
}

/// A small integer, however it is held, is converted to a float of its value.
pub proof fn a_small_integer_is_converted_exactly(
    number: NumberRef<'_>,
    n: int,
    float: Option<Float64>,
)
    requires
        number.wf(),
        number@ == Num::Int(n),
        -pow2(53) <= n <= pow2(53),
        call_ensures(NumberRef::as_f64, (number,), float),
    ensures
        float is Some,
        float->0.spec_is_finite(),
        float->0.spec_scaled() == n * scale_unit(),
{
    small_integers_are_exact(n);
    an_exact_integer_is_converted_exactly(number, n, float, nearest(n));
}

/// A float is converted to itself.
pub proof fn a_float_is_converted_to_itself(
    number: NumberRef<'_>,
    f: Float64,
    float: Option<Float64>,
)
    requires
        number.wf(),
        number@ == Num::Float(f),
        call_ensures(NumberRef::as_f64, (number,), float),
    ensures
        float == Some(f),
{
}

/// A Python integer that is not converted lies beyond every finite float; one that is
/// converted has no finite float that is nearer.
pub proof fn a_python_integer_is_converted_where_a_float_reaches_it(
    number: NumberRef<'_>,
    n: int,
    float: Option<Float64>,
    other: Float64,
)
    requires
        number.wf(),
        number is PythonInteger,
        number@ == Num::Int(n),
        call_ensures(NumberRef::as_f64, (number,), float),
        other.spec_is_finite(),
    ensures
        float is None ==> n != 0 && (n > 0 ==> other.spec_scaled() < n * scale_unit()) && (n < 0
            ==> n * scale_unit() < other.spec_scaled()),
        float matches Some(f) ==> f.spec_is_finite() && distance(
            f.spec_scaled(),
            n * scale_unit(),
        ) <= distance(other.spec_scaled(), n * scale_unit()),
{
    if nearest(n).spec_is_finite() {
        nearest_is_nearest(n, other);
    } else {
        infinite_is_too_large(n, other);
    }
}

/// A big integer is converted to some float, whatever its size.
pub proof fn a_big_integer_is_always_converted(number: NumberRef<'_>, float: Option<Float64>)
    requires
        number is BigInteger,
        call_ensures(NumberRef::as_f64, (number,), float),
    ensures
        float is Some,
{
}

/// The conversion to a float does not depend on how a number is held: two views of one number,
/// neither of them a big integer, are converted alike.
pub proof fn equal_numbers_have_one_float(
    a: NumberRef<'_>,
    b: NumberRef<'_>,
    x: Option<Float64>,
    y: Option<Float64>,
)
    requires
        a.wf(),
        b.wf(),
        a@ == b@,
        a !is BigInteger,
        b !is BigInteger,
        call_ensures(NumberRef::as_f64, (a,), x),
        call_ensures(NumberRef::as_f64, (b,), y),
    ensures
        x == y,
{
    if let Num::Int(n) = a@ {
        if i64::MIN <= n <= u64::MAX {
            lemma_word_is_short(n);
            lemma_nearest_is_finite(n);
        }
    }
}

/// The conversion to an `i64` does not depend on how a number is held: two views of one number,
/// neither of them a big integer, are converted alike.
pub proof fn equal_numbers_have_one_i64(
    a: NumberRef<'_>,
    b: NumberRef<'_>,
    x: Option<i64>,
    y: Option<i64>,
)
    requires
        a.wf(),
        b.wf(),
        a@ == b@,
        a !is BigInteger,
        b !is BigInteger,
        call_ensures(NumberRef::as_i64, (a,), x),
        call_ensures(NumberRef::as_i64, (b,), y),
    ensures
        x == y,
{
}

/// The conversion to a `u64` does not depend on how a number is held: two views of one number,
/// neither of them a big integer, are converted alike.
pub proof fn equal_numbers_have_one_u64(
    a: NumberRef<'_>,
    b: NumberRef<'_>,
    x: Option<u64>,
    y: Option<u64>,
)
    requires
        a.wf(),
        b.wf(),
        a@ == b@,
        a !is BigInteger,
        b !is BigInteger,
        call_ensures(NumberRef::as_u64, (a,), x),
        call_ensures(NumberRef::as_u64, (b,), y),
    ensures
        x == y,
{
}

/// An integer that is an `i64` is converted to itself, however it is held, save as a big
/// integer; nothing else is converted to an `i64`.
pub proof fn an_i64_is_converted_to_itself(number: NumberRef<'_>, v: i64, n: Option<i64>)
    requires
        number.wf(),
        call_ensures(NumberRef::as_i64, (number,), n),
    ensures
        number@ == Num::Int(v as int) && number !is BigInteger <==> n == Some(v),
{
}

/// An integer that is a `u64` is converted to itself, however it is held, save as a big
/// integer; nothing else is converted to a `u64`.
pub proof fn a_u64_is_converted_to_itself(number: NumberRef<'_>, v: u64, n: Option<u64>)
    requires
        number.wf(),
        call_ensures(NumberRef::as_u64, (number,), n),
    ensures
        number@ == Num::Int(v as int) && number !is BigInteger <==> n == Some(v),
{
}

/// The conversions to integers agree: each gives what the other gives where both types have
/// that integer, and a number that is converted to an integer is one.
pub proof fn conversions_to_integers_agree(
    number: NumberRef<'_>,
    x: Option<i64>,
    y: Option<u64>,
    integer: bool,
)
    requires
        number.wf(),
        call_ensures(NumberRef::as_i64, (number,), x),
        call_ensures(NumberRef::as_u64, (number,), y),
        call_ensures(NumberRef::is_integer, (number,), integer),
    ensures
        x matches Some(v) ==> integer && (v >= 0 ==> y == Some(v as u64)) && (v < 0 ==> y is None),
        y matches Some(v) ==> integer && (v <= i64::MAX ==> x == Some(v as i64)) && (v > i64::MAX
            ==> x is None),
{
}

/// A number is an integer exactly where some integer has its value.
pub proof fn an_integer_is_what_has_the_value_of_one(number: NumberRef<'_>, integer: bool)
    requires
        call_ensures(NumberRef::is_integer, (number,), integer),
    ensures
        integer <==> match number@ {
            Num::Int(_) => true,
            Num::Float(f) => f.spec_is_finite() && exists|n: int|
                f.spec_scaled() == #[trigger] (n * scale_unit()),
        },
{
    if let Num::Float(f) = number@ {
        let unit = scale_unit() as int;
        lemma_pow2_pos(1074);
        if integer {
            let n = f.spec_scaled() / unit;
            vstd::arithmetic::div_mod::lemma_fundamental_div_mod(f.spec_scaled(), unit);
            assert(f.spec_scaled() == n * scale_unit()) by (nonlinear_arith)
                requires
                    f.spec_scaled() == unit * n + f.spec_scaled() % unit,
                    f.spec_scaled() % unit == 0,
                    unit == scale_unit(),
            ;
        }
        if f.spec_is_finite() && exists|n: int| f.spec_scaled() == #[trigger] (n * scale_unit()) {
            let n = choose|n: int| f.spec_scaled() == #[trigger] (n * scale_unit());
            is_int_unique(f, n, n);
        }
    }
}

/// Whether a number is an integer does not depend on how it is held.
pub proof fn equal_numbers_are_integers_alike(
    a: NumberRef<'_>,
    b: NumberRef<'_>,
    x: bool,
    y: bool,
)
    requires
        a@ == b@,
        call_ensures(NumberRef::is_integer, (a,), x),
        call_ensures(NumberRef::is_integer, (b,), y),
    ensures
        x == y,
{
}

/// A value is converted as its number is, and a value that is no number is not converted.
pub proof fn a_value_is_converted_as_its_number(
    view: InstanceRef<'_>,
    number: Option<NumberRef<'_>>,
    x: Option<i64>,
    y: Option<u64>,
    z: Option<Float64>,
)
    requires
        call_ensures(InstanceRef::as_number, (view,), number),
        call_ensures(InstanceRef::as_i64, (view,), x),
        call_ensures(InstanceRef::as_u64, (view,), y),
        call_ensures(InstanceRef::as_f64, (view,), z),
    ensures
        number is None ==> x is None && y is None && z is None,
        number matches Some(n) ==> forall|v: Option<i64>| #[trigger]
            call_ensures(NumberRef::as_i64, (n,), v) ==> v == x,
        number matches Some(n) ==> forall|v: Option<u64>| #[trigger]
            call_ensures(NumberRef::as_u64, (n,), v) ==> v == y,
        number matches Some(n) ==> n !is BigInteger ==> forall|v: Option<Float64>| #[trigger]
            call_ensures(NumberRef::as_f64, (n,), v) ==> v == z,
{
}

/// An integer of no more than 96 binary digits in a value, in whatever representation, is
/// converted to a finite float, and no other finite float is nearer to it.
pub proof fn no_float_is_nearer_to_a_short_integer_in_a_value(
    view: InstanceRef<'_>,
    number: NumberRef<'_>,
    n: int,
    float: Option<Float64>,
    other: Float64,
)
    requires
        call_ensures(InstanceRef::as_number, (view,), Some(number)),
        number@ == Num::Int(n),
        -pow2(96) < n < pow2(96),
        call_ensures(InstanceRef::as_f64, (view,), float),
        other.spec_is_finite(),
    ensures
        float is Some,
        float->0.spec_is_finite(),
        distance(float->0.spec_scaled(), n * scale_unit()) <= distance(
            other.spec_scaled(),
            n * scale_unit(),
        ),
{
    lemma_nearest_is_finite(n);
    nearest_is_nearest(n, other);
    if number is BigInteger {
        near_is_nearest_for_short(n, float->0);
    }
}

} // verus!
