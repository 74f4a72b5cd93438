//! Borrowed JSON numbers.

use crate::float64::{is_int_unique, Float64};
use crate::integer::{is_near, BigInteger};
use crate::python::PythonValue;
use crate::value::{Num, OwnedNumber};
use vstd::prelude::*;

verus! {

/// A borrowed JSON number.
#[derive(Clone, Copy, Debug)]
pub enum NumberRef<'a> {
    Serde(&'a OwnedNumber),
    Integer(i64),
    BigInteger(&'a BigInteger),
    PythonInteger(PythonValue<'a>),
    Float(Float64),
}

impl<'a> View for NumberRef<'a> {
    type V = Num;

    open spec fn view(&self) -> Num {
        match *self {
            NumberRef::Serde(n) => n@,
            NumberRef::Integer(n) => Num::Int(n as int),
            NumberRef::BigInteger(n) => Num::Int(n@),
            NumberRef::PythonInteger(v) => Num::Int(v.spec_object()->Int_0@),
            NumberRef::Float(f) => Num::Float(f),
        }
    }
}

/// `NumCmp::num_eq` on an `i64` and a `u64`: trusted to hold exactly where the
/// two are the same integer.
#[verifier::external_body]
fn num_eq_mixed(a: i64, b: u64) -> (equal: bool)
    ensures
        equal == (a == b),
{
    num_cmp::NumCmp::num_eq(a, b)
}

/// Whether a float stands for an integer.
fn float_equals_i64(float: Float64, n: i64) -> (equal: bool)
    ensures
        equal == float.spec_is_int(n as int),
{
    if n >= 0 {
        float.equals_integer(false, n as u64)
    } else {
        float.equals_integer(true, (-(n + 1)) as u64 + 1)
    }
}

/// Whether a number is the integer `value`.
pub fn number_equals_i64(expected: &OwnedNumber, value: i64) -> (equal: bool)
    requires
        expected.wf(),
    ensures
        equal == Num::Int(value as int).equals(expected@),
{
    if let Some(expected) = expected.as_i64() {
        value == expected
    } else if let Some(expected) = expected.as_u64() {
        num_eq_mixed(value, expected)
    } else {
        match expected {
            OwnedNumber::Float(expected) => float_equals_i64(*expected, value),
            _ => false,
        }
    }
}

/// Whether a number is the integer `value`.
fn number_equals_u64(expected: &OwnedNumber, value: u64) -> (equal: bool)
    requires
        expected.wf(),
    ensures
        equal == Num::Int(value as int).equals(expected@),
{
    if let Some(expected) = expected.as_u64() {
        value == expected
    } else if let Some(expected) = expected.as_i64() {
        num_eq_mixed(expected, value)
    } else {
        match expected {
            OwnedNumber::Float(expected) => expected.equals_integer(false, value),
            _ => false,
        }
    }
}

/// Whether a number has the value of a float.
pub fn number_equals_f64(expected: &OwnedNumber, value: Float64) -> (equal: bool)
    requires
        expected.wf(),
    ensures
        equal == Num::Float(value).equals(expected@),
{
    if let Some(expected) = expected.as_i64() {
        float_equals_i64(value, expected)
    } else if let Some(expected) = expected.as_u64() {
        value.equals_integer(false, expected)
    } else {
        match expected {
            OwnedNumber::Float(expected) => value.equals(*expected),
            _ => false,
        }
    }
}

/// Whether a number has the value of an integer.
pub fn bigint_equals_serde(value: &BigInteger, expected: &OwnedNumber) -> (equal: bool)
    requires
        expected.wf(),
    ensures
        equal == Num::Int(value@).equals(expected@),
{
    if let Some(expected) = expected.as_i64() {
        value.equals(&BigInteger::from_i64(expected))
    } else if let Some(expected) = expected.as_u64() {
        value.equals(&BigInteger::from_u64(expected))
    } else {
        match expected {
            OwnedNumber::Float(expected) => match BigInteger::from_float(*expected) {
                Some(n) => {
                    proof {
                        is_int_unique(*expected, n@, value@);
                    }
                    value.equals(&n)
                },
                None => {
                    proof {
                        if expected.spec_is_int(value@) {
                            is_int_unique(*expected, value@, value@);
                        }
                    }
                    false
                },
            },
            _ => false,
        }
    }
}

impl<'a> NumberRef<'a> {
    /// A number of Python is an `int`; a number in an owned value is in its normal form.
    pub open spec fn wf(self) -> bool {
        match self {
            NumberRef::Serde(n) => n.wf(),
            NumberRef::PythonInteger(v) => v.wf() && v.spec_object() is Int,
            _ => true,
        }
    }

    /// Whether a float is what the number converts to: the nearest one, save that a
    /// Python integer too large for a finite float has none, and that for a
    /// [`BigInteger`] of more than 96 binary digits it can be the one nearest to its 64
    /// highest.
    pub open spec fn converts_to(self, float: Option<Float64>) -> bool {
        match self {
            NumberRef::BigInteger(n) => float is Some && is_near(n@, float->0),
            NumberRef::PythonInteger(_) => if self@.to_float().spec_is_finite() {
                float == Some(self@.to_float())
            } else {
                float is None
            },
            _ => float == Some(self@.to_float()),
        }
    }

    /// The number as an `i64`, where it is an integer that fits. A number held as
    /// a [`BigInteger`] or as a float is not converted.
    pub fn as_i64(self) -> (n: Option<i64>)
        requires
            self.wf(),
        ensures
            n is Some <==> self !is BigInteger && self@.integer_between(
                i64::MIN as int,
                i64::MAX as int,
            ) is Some,
            n matches Some(v) ==> self@ == Num::Int(v as int),
    {
        match self {
            NumberRef::Serde(value) => value.as_i64(),
            NumberRef::Integer(value) => Some(value),
            NumberRef::BigInteger(_) | NumberRef::Float(_) => None,
            NumberRef::PythonInteger(value) => match value.integer() {
                Some(n) => n.to_i64(),
                None => None,
            },
        }
    }

    /// The number as a `u64`, where it is an integer that fits. A number held as
    /// a [`BigInteger`] or as a float is not converted.
    pub fn as_u64(self) -> (n: Option<u64>)
        requires
            self.wf(),
        ensures
            n is Some <==> self !is BigInteger && self@.integer_between(0, u64::MAX as int) is Some,
            n matches Some(v) ==> self@ == Num::Int(v as int),
    {
        match self {
            NumberRef::Serde(value) => value.as_u64(),
            NumberRef::Integer(value) => if value >= 0 {
                Some(value as u64)
            } else {
                None
            },
            NumberRef::BigInteger(_) | NumberRef::Float(_) => None,
            NumberRef::PythonInteger(value) => match value.integer() {
                Some(n) => n.to_u64(),
                None => None,
            },
        }
    }

    /// The float nearest to the number, or for a [`BigInteger`] of more than 96 binary digits
    /// perhaps the one nearest to its 64 highest. A Python integer too large for a finite
    /// float has none.
    pub fn as_f64(self) -> (float: Option<Float64>)
        requires
            self.wf(),
        ensures
            self.converts_to(float),
    {
        match self {
            NumberRef::Serde(value) => value.as_f64(),
            NumberRef::Integer(value) => Some(Float64::from_i64(value)),
            NumberRef::BigInteger(value) => value.to_float(),
            NumberRef::PythonInteger(value) => match value.integer() {
                Some(n) => {
                    let float = n.to_nearest();
                    if float.is_finite() {
                        Some(float)
                    } else {
                        None
                    }
                },
                None => None,
            },
            NumberRef::Float(value) => Some(value),
        }
    }

    /// Whether the number has no fractional part.
    pub fn is_integer(self) -> (integer: bool)
        ensures
            integer == self@.is_integer(),
    {
        match self {
            NumberRef::Serde(value) => value.is_integer(),
            NumberRef::Integer(_) | NumberRef::BigInteger(_) | NumberRef::PythonInteger(_) => true,
            NumberRef::Float(value) => value.is_integral(),
        }
    }

    /// Whether the number has the value of another.
    pub fn equals_serde(self, expected: &OwnedNumber) -> (equal: bool)
        requires
            self.wf(),
            expected.wf(),
        ensures
            equal == self@.equals(expected@),
    {
        match self {
            NumberRef::Serde(value) => match value {
                OwnedNumber::PosInt(n) => number_equals_u64(expected, *n),
                OwnedNumber::NegInt(n) => number_equals_i64(expected, *n),
                OwnedNumber::Float(f) => number_equals_f64(expected, *f),
            },
            NumberRef::Integer(value) => number_equals_i64(expected, value),
            NumberRef::BigInteger(value) => bigint_equals_serde(value, expected),
            NumberRef::PythonInteger(value) => match value.integer() {
                Some(value) => if let Some(value) = value.to_i64() {
                    number_equals_i64(expected, value)
                } else if let Some(value) = value.to_u64() {
                    number_equals_u64(expected, value)
                } else {
                    bigint_equals_serde(value, expected)
                },
                None => false,
            },
            NumberRef::Float(value) => number_equals_f64(expected, value),
        }
    }
}

} // verus!
