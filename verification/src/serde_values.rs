//! Values of `serde_json`, read into values of this library.

use crate::float64::{nearest, Float64};
use crate::integer::decimal;
use crate::text::text_less;
use crate::value::{Json, Num, OwnedNumber, ObjectMap, OwnedValue};
use vstd::prelude::*;

verus! {

/// `serde_json::Value`, a tree of JSON values.
#[verifier::external_type_specification]
#[verifier::external_body]
pub struct ExSerdeValue(serde_json::Value);

/// `serde_json::Number`, a JSON number.
#[verifier::external_type_specification]
#[verifier::external_body]
pub struct ExSerdeNumber(serde_json::Number);

/// The tree that a value of `serde_json` holds, the members of its objects in the
/// order of `Map::iter`.
pub uninterp spec fn serde_tree(value: serde_json::Value) -> Json;

/// The number that a `serde_json::Number` holds.
pub uninterp spec fn serde_num(number: serde_json::Number) -> Num;

/// What `serde_json::from_str` makes of a text when it reads it as a number.
pub uninterp spec fn parsed_number(text: Seq<char>) -> Option<Num>;

/// One level of a value of `serde_json`.
pub enum SerdeShape<'a> {
    Null,
    Bool(bool),
    Number(&'a serde_json::Number),
    Str(&'a str),
    Array(&'a Vec<serde_json::Value>),
    Object(Vec<(&'a String, &'a serde_json::Value)>),
}

impl<'a> SerdeShape<'a> {
    /// Whether this is the first level of a tree.
    pub open spec fn is_top_of(self, tree: Json) -> bool {
        match self {
            SerdeShape::Null => tree == Json::Null,
            SerdeShape::Bool(b) => tree == Json::Bool(b),
            SerdeShape::Number(n) => tree == Json::Number(serde_num(*n)),
            SerdeShape::Str(s) => tree == Json::Str(s@),
            SerdeShape::Array(items) => tree == Json::Array(
                Seq::new(items@.len(), |i: int| serde_tree(items@[i])),
            ),
            SerdeShape::Object(entries) => {
                &&& tree == Json::Object(
                    Seq::new(
                        entries@.len(),
                        |i: int| (entries@[i].0@, serde_tree(*entries@[i].1)),
                    ),
                )
                &&& forall|i: int, j: int|
                    0 <= i < j < entries@.len() ==> text_less(
                        #[trigger] entries@[i].0@,
                        #[trigger] entries@[j].0@,
                    )
            },
        }
    }
}

/// The variant of a `serde_json::Value` with what it holds, and `Map::iter` for
/// an object: trusted to give the first level of its tree, with the members of an
/// object in ascending order of their keys, none of them twice.
#[verifier::external_body]
fn serde_shape<'a>(value: &'a serde_json::Value) -> (shape: SerdeShape<'a>)
    ensures
        shape.is_top_of(serde_tree(*value)),
{
    match value {
        serde_json::Value::Null => SerdeShape::Null,
        serde_json::Value::Bool(b) => SerdeShape::Bool(*b),
        serde_json::Value::Number(n) => SerdeShape::Number(n),
        serde_json::Value::String(s) => SerdeShape::Str(s),
        serde_json::Value::Array(items) => SerdeShape::Array(items),
        serde_json::Value::Object(map) => SerdeShape::Object(map.iter().collect()),
    }
}

/// `serde_json::Number::as_u64`: trusted to give the number where it is an integer
/// between zero and `u64::MAX`.
#[verifier::external_body]
fn serde_as_u64(number: &serde_json::Number) -> (n: Option<u64>)
    ensures
        n is Some <==> serde_num(*number).integer_between(0, u64::MAX as int) is Some,
        n matches Some(v) ==> serde_num(*number) == Num::Int(v as int),
{
    number.as_u64()
}

/// `serde_json::Number::as_i64`: trusted to give the number where it is an integer
/// between `i64::MIN` and `i64::MAX`.
#[verifier::external_body]
fn serde_as_i64(number: &serde_json::Number) -> (n: Option<i64>)
    ensures
        n is Some <==> serde_num(*number).integer_between(i64::MIN as int, i64::MAX as int) is Some,
        n matches Some(v) ==> serde_num(*number) == Num::Int(v as int),
{
    number.as_i64()
}

/// `serde_json::Number::as_f64`, its result as a bit pattern: trusted to give the
/// nearest float, which for a number that is no integer of 64 bits is the finite
/// float that it holds.
#[verifier::external_body]
fn serde_as_f64(number: &serde_json::Number) -> (float: Option<Float64>)
    ensures
        float == Some(serde_num(*number).to_float()),
        serde_num(*number).integer_between(i64::MIN as int, u64::MAX as int) is None
            ==> serde_num(*number) == Num::Float(float->0) && float->0.spec_is_finite(),
{
    number.as_f64().map(|v| Float64 { bits: v.to_bits() })
}

/// `serde_json::from_str` to a `serde_json::Number`. What it makes of a text is
/// `parsed_number`; it is trusted to read the decimal text of an integer between
/// `i64::MIN` and `u64::MAX` as that integer, and that of any other integer as the nearest
/// float, ties to even, or not at all where that float is infinite. The feature
/// `float_roundtrip` makes it round so.
#[verifier::external_body]
fn serde_parse_number(text: &str) -> (number: Option<serde_json::Number>)
    ensures
        number is Some <==> parsed_number(text@) is Some,
        number matches Some(n) ==> parsed_number(text@) == Some(serde_num(n)),
        forall|n: int|
            i64::MIN <= n <= u64::MAX && text@ == #[trigger] decimal(n)
                ==> number is Some && serde_num(number->0) == Num::Int(n),
        forall|n: int|
            !(i64::MIN <= n <= u64::MAX) && text@ == #[trigger] decimal(n) ==> (
            number is Some <==> nearest(n).spec_is_finite()),
        forall|n: int|
            !(i64::MIN <= n <= u64::MAX) && nearest(n).spec_is_finite() && text@
                == #[trigger] decimal(n) ==> serde_num(number->0) == Num::Float(nearest(n)),
{
    serde_json::from_str(text).ok()
}

impl OwnedNumber {
    /// The number that a `serde_json::Number` holds.
    pub fn from_serde(number: &serde_json::Number) -> (n: OwnedNumber)
        ensures
            n@ == serde_num(*number),
            n.wf(),
    {
        if let Some(n) = serde_as_u64(number) {
            return OwnedNumber::PosInt(n);
        }
        if let Some(n) = serde_as_i64(number) {
            return OwnedNumber::NegInt(n);
        }
        match serde_as_f64(number) {
            Some(f) => OwnedNumber::Float(f),
            None => OwnedNumber::PosInt(0),
        }
    }

    /// The number that a text stands for in JSON, where it stands for one.
    pub fn parse(text: &str) -> (number: Option<OwnedNumber>)
        ensures
            number is Some <==> parsed_number(text@) is Some,
            number matches Some(n) ==> parsed_number(text@) == Some(n@) && n.wf(),
            forall|n: int|
                i64::MIN <= n <= u64::MAX && text@ == #[trigger] decimal(n)
                    ==> number is Some && number->0@ == Num::Int(n),
            forall|n: int|
                !(i64::MIN <= n <= u64::MAX) && text@ == #[trigger] decimal(n) ==> (
                number is Some <==> nearest(n).spec_is_finite()),
            forall|n: int|
                !(i64::MIN <= n <= u64::MAX) && nearest(n).spec_is_finite() && text@
                    == #[trigger] decimal(n) ==> number->0@ == Num::Float(nearest(n)),
    {
        match serde_parse_number(text) {
            Some(n) => Some(OwnedNumber::from_serde(&n)),
            None => None,
        }
    }
}

impl OwnedValue {
    /// The value that a `serde_json::Value` holds.
    pub fn from_serde(value: &serde_json::Value) -> (v: OwnedValue)
        ensures
            v@ == serde_tree(*value),
            v.wf(),
        decreases serde_tree(*value),
    {
        let shape = serde_shape(value);
        match shape {
            SerdeShape::Null => OwnedValue::Null,
            SerdeShape::Bool(b) => OwnedValue::Bool(b),
            SerdeShape::Number(n) => OwnedValue::Number(OwnedNumber::from_serde(n)),
            SerdeShape::Str(s) => OwnedValue::String(s.to_owned()),
            SerdeShape::Array(items) => {
                let mut values: Vec<OwnedValue> = Vec::new();
                let mut i: usize = 0;
                while i < items.len()
                    invariant
                        serde_tree(*value) == Json::Array(
                            Seq::new(items@.len(), |i: int| serde_tree(items@[i])),
                        ),
                        i <= items.len(),
                        values.len() == i,
                        forall|k: int|
                            0 <= k < i ==> (#[trigger] values@[k]).json() == serde_tree(items@[k])
                                && values@[k].wf(),
                    decreases items.len() - i,
                {
                    proof {
                        let tree = serde_tree(*value);
                        assert(tree->Array_0[i as int] == serde_tree(items@[i as int]));
                        assert(decreases_to!(tree => tree->Array_0));
                        assert(decreases_to!(tree => tree->Array_0[i as int]));
                    }
                    values.push(OwnedValue::from_serde(&items[i]));
                    i += 1;
                }
                let v = OwnedValue::Array(values);
                proof {
                    assert(v->Array_0 == values);
                    assert(v.json()->Array_0 =~= serde_tree(*value)->Array_0);
                }
                v
            },
            SerdeShape::Object(members) => {
                let mut entries: Vec<(String, OwnedValue)> = Vec::new();
                let mut i: usize = 0;
                while i < members.len()
                    invariant
                        serde_tree(*value) == Json::Object(
                            Seq::new(
                                members@.len(),
                                |i: int| (members@[i].0@, serde_tree(*members@[i].1)),
                            ),
                        ),
                        i <= members.len(),
                        entries.len() == i,
                        forall|k: int|
                            0 <= k < i ==> (#[trigger] entries@[k]).0@ == members@[k].0@
                                && entries@[k].1.json() == serde_tree(*members@[k].1)
                                && entries@[k].1.wf(),
                    decreases members.len() - i,
                {
                    proof {
                        let tree = serde_tree(*value);
                        assert(tree->Object_0[i as int].1 == serde_tree(*members@[i as int].1));
                        assert(decreases_to!(tree => tree->Object_0));
                        assert(decreases_to!(tree => tree->Object_0[i as int]));
                        assert(decreases_to!(tree => tree->Object_0[i as int].1));
                    }
                    let (key, member) = members[i];
                    entries.push((key.clone(), OwnedValue::from_serde(member)));
                    i += 1;
                }
                let map = ObjectMap { entries };
                proof {
                    crate::value::object_view(map);
                    assert(map@ =~= serde_tree(*value)->Object_0);
                    crate::value::map_wf(map);
                }
                OwnedValue::Object(map)
            },
        }
    }
}

} // verus!
