//! Laws of reading values of `serde_json` and `jiter`: a value that is read holds what it was read
//! from.

use crate::jiter_values::{jiter_tree, JiterTree, JiterValue};
use crate::serde_values::{serde_num, serde_tree};
use crate::value::{array_view, object_view, Json, Num, OwnedNumber, OwnedValue};
use vstd::prelude::*;

verus! {

/// A number that is read from `serde_json` is the same integer, held without a sign from zero on,
/// or the same float.
pub proof fn a_number_is_read_as_it_is(number: &serde_json::Number, n: OwnedNumber)
    requires
        call_ensures(OwnedNumber::from_serde, (number,), n),
    ensures
        serde_num(*number) matches Num::Int(v) ==> match n {
            OwnedNumber::PosInt(m) => v >= 0 && m == v,
            OwnedNumber::NegInt(m) => v < 0 && m == v,
            OwnedNumber::Float(_) => false,
        },
        serde_num(*number) matches Num::Float(f) ==> n == OwnedNumber::Float(f),
{
}

/// A value that is read from `serde_json` is of the same kind and holds the same.
pub proof fn an_owned_value_is_read_as_it_is(value: &serde_json::Value, v: OwnedValue, i: int)
    requires
        call_ensures(OwnedValue::from_serde, (value,), v),
    ensures
        v.wf(),
        match serde_tree(*value) {
            Json::Null => v is Null,
            Json::Bool(b) => v == OwnedValue::Bool(b),
            Json::Str(s) => v is String && v->String_0@ == s,
            Json::Number(n) => v is Number && match v->Number_0 {
                OwnedNumber::PosInt(m) => n == Num::Int(m as int),
                OwnedNumber::NegInt(m) => n == Num::Int(m as int),
                OwnedNumber::Float(f) => n == Num::Float(f),
            },
            Json::Array(items) => v is Array && v->Array_0@.len() == items.len() && (0 <= i
                < items.len() ==> v->Array_0@[i]@ == items[i]),
            Json::Object(members) => v is Object && v->Object_0.entries@.len() == members.len() && (
            0 <= i < members.len() ==> v->Object_0.entries@[i].0@ == members[i].0
                && v->Object_0.entries@[i].1@ == members[i].1),
        },
{
    match v {
        OwnedValue::Array(items) => {
            array_view(items);
            assert(v@->Array_0.len() == items@.len());
            if 0 <= i < items@.len() {
                assert(v@->Array_0[i] == items@[i]@);
            }
        },
        OwnedValue::Object(map) => {
            object_view(map);
            assert(v@->Object_0.len() == map.entries@.len());
            if 0 <= i < map.entries@.len() {
                assert(v@->Object_0[i] == (map.entries@[i].0@, map.entries@[i].1@));
            }
        },
        _ => {},
    }
}

/// A value that is read from `jiter` is held in the same way and holds the same.
pub proof fn a_parsed_value_is_read_as_it_is<'a>(
    value: &'a jiter::JsonValue<'a>,
    v: JiterValue,
    i: int,
)
    requires
        call_ensures(JiterValue::from_jiter, (value,), v),
    ensures
        match jiter_tree(*value) {
            JiterTree::Null => v is Null,
            JiterTree::Bool(b) => v == JiterValue::Bool(b),
            JiterTree::Int(n) => v is Int && v->Int_0 == n,
            JiterTree::BigInt(n) => v is BigInt && v->BigInt_0@ == n,
            JiterTree::Float(f) => v == JiterValue::Float(f),
            JiterTree::Str(s) => v is Str && v->Str_0@ == s,
            JiterTree::Array(items) => v is Array && v->Array_0@.len() == items.len() && (0 <= i
                < items.len() ==> v->Array_0@[i].held() == items[i]),
            JiterTree::Object(members) => v is Object && v->Object_0@.len() == members.len() && (0
                <= i < members.len() ==> v->Object_0@[i].0@ == members[i].0
                && v->Object_0@[i].1.held() == members[i].1),
        },
{
    match v {
        JiterValue::Array(items) => {
            assert(v.held()->Array_0.len() == items@.len());
            if 0 <= i < items@.len() {
                assert(v.held()->Array_0[i] == items@[i].held());
            }
        },
        JiterValue::Object(entries) => {
            assert(v.held()->Object_0.len() == entries@.len());
            if 0 <= i < entries@.len() {
                assert(v.held()->Object_0[i] == (entries@[i].0@, entries@[i].1.held()));
            }
        },
        _ => {},
    }
}

/// The tree of an owned value is what it holds.
pub proof fn the_tree_of_an_owned_value_is_what_it_holds(v: OwnedValue, i: int)
    ensures
        match v {
            OwnedValue::Null => v@ == Json::Null,
            OwnedValue::Bool(b) => v@ == Json::Bool(b),
            OwnedValue::Number(OwnedNumber::PosInt(n)) => v@ == Json::Number(Num::Int(n as int)),
            OwnedValue::Number(OwnedNumber::NegInt(n)) => v@ == Json::Number(Num::Int(n as int)),
            OwnedValue::Number(OwnedNumber::Float(f)) => v@ == Json::Number(Num::Float(f)),
            OwnedValue::String(s) => v@ == Json::Str(s@),
            OwnedValue::Array(items) => v@ is Array && v@->Array_0.len() == items@.len() && (0 <= i
                < items@.len() ==> v@->Array_0[i] == items@[i]@),
            OwnedValue::Object(map) => v@ is Object && v@->Object_0.len() == map.entries@.len() && (
            0 <= i < map.entries@.len() ==> v@->Object_0[i].0 == map.entries@[i].0@
                && v@->Object_0[i].1 == map.entries@[i].1@),
        },
{
    match v {
        OwnedValue::Array(items) => {
            array_view(items);
        },
        OwnedValue::Object(map) => {
            object_view(map);
        },
        _ => {},
    }
}

/// The tree of a value that `jiter` parsed is what it holds.
pub proof fn the_tree_of_a_parsed_value_is_what_it_holds(v: JiterValue, i: int)
    ensures
        match v {
            JiterValue::Null => v@ == Json::Null,
            JiterValue::Bool(b) => v@ == Json::Bool(b),
            JiterValue::Int(n) => v@ == Json::Number(Num::Int(n as int)),
            JiterValue::BigInt(n) => v@ == Json::Number(Num::Int(n@)),
            JiterValue::Float(f) => v@ == Json::Number(Num::Float(f)),
            JiterValue::Str(s) => v@ == Json::Str(s@),
            JiterValue::Array(items) => v@ is Array && v@->Array_0.len() == items@.len() && (0 <= i
                < items@.len() ==> v@->Array_0[i] == items@[i]@),
            JiterValue::Object(entries) => v@ is Object && v@->Object_0.len() == entries@.len() && (
            0 <= i < entries@.len() ==> v@->Object_0[i].0 == entries@[i].0@ && v@->Object_0[i].1
                == entries@[i].1@),
        },
{
    match v {
        JiterValue::Array(items) => {
            assert(v->Array_0 == items);
        },
        JiterValue::Object(entries) => {
            assert(v->Object_0 == entries);
        },
        _ => {},
    }
}

} // verus!
