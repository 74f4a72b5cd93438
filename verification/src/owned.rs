//! Values that own their parts, made out of the views of other representations.

use crate::float64::nearest;
use crate::integer::BigInteger;
use crate::jiter_values::JiterValue;
use crate::python::{
    dict_entries, finite_within, is_finite, key_text, python_tree, references_below, sequence_items,
    tree_within, PythonObject, PythonValue,
};
use crate::value::{collected, Json, Num, ObjectMap, OwnedNumber, OwnedValue};
use vstd::prelude::*;

verus! {

/// The number that an [`OwnedValue`] holds for an integer: the integer itself
/// where it has 64 bits, else the nearest float. It holds none where that float is
/// infinite.
pub open spec fn owned_integer(n: int) -> Option<Num> {
    if i64::MIN <= n <= u64::MAX {
        Some(Num::Int(n))
    } else if nearest(n).spec_is_finite() {
        Some(Num::Float(nearest(n)))
    } else {
        None
    }
}

/// Whether a tree has an owned value: its floats are finite, and so are the floats
/// nearest to its integers of more than 64 bits.
pub open spec fn ownable(tree: Json) -> bool
    decreases tree,
{
    match tree {
        Json::Number(Num::Int(n)) => owned_integer(n) is Some,
        Json::Number(Num::Float(f)) => f.spec_is_finite(),
        Json::Array(items) => forall|i: int|
            0 <= i < items.len() ==> ownable(#[trigger] items[i]),
        Json::Object(members) => forall|i: int|
            0 <= i < members.len() ==> ownable((#[trigger] members[i]).1),
        _ => true,
    }
}

/// The tree of the owned value for a tree. In an object the members are in
/// ascending order of their keys, and of several members with one key the last
/// one stays.
pub open spec fn owned_tree(tree: Json) -> Json
    decreases tree,
{
    match tree {
        Json::Number(Num::Int(n)) => Json::Number(owned_integer(n)->0),
        Json::Array(items) => Json::Array(
            Seq::new(
                items.len(),
                |i: int|
                    if 0 <= i < items.len() {
                        owned_tree(items[i])
                    } else {
                        Json::Null
                    },
            ),
        ),
        Json::Object(members) => Json::Object(collected(owned_members(members))),
        _ => tree,
    }
}

/// The members of an object, each with the owned tree of its value.
pub open spec fn owned_members(members: Seq<(Seq<char>, Json)>) -> Seq<(Seq<char>, Json)>
    decreases members,
{
    Seq::new(
        members.len(),
        |i: int|
            if 0 <= i < members.len() {
                (members[i].0, owned_tree(members[i].1))
            } else {
                (Seq::empty(), Json::Null)
            },
    )
}

/// The number for an integer: the integer itself where it has 64 bits, else the nearest
/// float where that is finite.
pub fn integer_to_number(n: &BigInteger) -> (number: Option<OwnedNumber>)
    ensures
        number is Some <==> owned_integer(n@) is Some,
        number matches Some(v) ==> owned_integer(n@) == Some(v@) && v.wf(),
{
    if let Some(v) = n.to_i64() {
        return Some(OwnedNumber::from_i64(v));
    }
    if let Some(v) = n.to_u64() {
        return Some(OwnedNumber::from_u64(v));
    }
    OwnedNumber::parse(n.to_decimal().as_str())
}

/// Whether a value that `jiter` parsed has an owned value.
pub fn jiter_is_ownable(value: &JiterValue) -> (yes: bool)
    ensures
        yes == ownable(value@),
    decreases value,
{
    match value {
        JiterValue::BigInt(n) => OwnedNumber::parse(n.to_decimal().as_str()).is_some(),
        JiterValue::Float(f) => f.is_finite(),
        JiterValue::Array(items) => {
            let ghost tree = value@;
            let mut i: usize = 0;
            while i < items.len()
                invariant
                    *value == JiterValue::Array(*items),
                    tree == value@,
                    i <= items.len(),
                    forall|k: int| 0 <= k < i ==> ownable(#[trigger] tree->Array_0[k]),
                decreases items.len() - i,
            {
                proof {
                    assert(decreases_to!(*value => value->Array_0));
                    assert(decreases_to!(*value => value->Array_0@));
                    assert(decreases_to!(*value => value->Array_0@[i as int]));
                    assert(tree->Array_0[i as int] == items@[i as int].json());
                }
                if !jiter_is_ownable(&items[i]) {
                    return false;
                }
                i += 1;
            }
            true
        },
        JiterValue::Object(entries) => {
            let ghost tree = value@;
            let mut i: usize = 0;
            while i < entries.len()
                invariant
                    *value == JiterValue::Object(*entries),
                    tree == value@,
                    i <= entries.len(),
                    forall|k: int| 0 <= k < i ==> ownable((#[trigger] tree->Object_0[k]).1),
                decreases entries.len() - i,
            {
                proof {
                    assert(decreases_to!(*value => value->Object_0));
                    assert(decreases_to!(*value => value->Object_0@));
                    assert(decreases_to!(*value => value->Object_0@[i as int]));
                    assert(decreases_to!(*value => value->Object_0@[i as int].1));
                    assert(tree->Object_0[i as int].1 == entries@[i as int].1.json());
                }
                if !jiter_is_ownable(&entries[i].1) {
                    return false;
                }
                i += 1;
            }
            true
        },
        _ => true,
    }
}

/// The owned value for a value that `jiter` parsed.
pub fn jiter_to_serde(value: &JiterValue) -> (owned: OwnedValue)
    requires
        ownable(value@),
    ensures
        owned@ == owned_tree(value@),
        owned.wf(),
    decreases value,
{
    match value {
        JiterValue::Null => OwnedValue::Null,
        JiterValue::Bool(b) => OwnedValue::Bool(*b),
        JiterValue::Int(n) => OwnedValue::Number(OwnedNumber::from_i64(*n)),
        JiterValue::BigInt(n) => {
            let text = n.to_decimal();
            let number = OwnedNumber::parse(text.as_str());
            OwnedValue::Number(number.unwrap())
        },
        JiterValue::Float(f) => OwnedValue::Number(OwnedNumber::from_f64(*f).unwrap()),
        JiterValue::Str(s) => OwnedValue::String(s.clone()),
        JiterValue::Array(items) => {
            let ghost tree = value@;
            let mut values: Vec<OwnedValue> = Vec::new();
            let mut i: usize = 0;
            while i < items.len()
                invariant
                    *value == JiterValue::Array(*items),
                    tree == value@,
                    ownable(tree),
                    i <= items.len(),
                    values.len() == i,
                    forall|k: int|
                        0 <= k < i ==> (#[trigger] values@[k]).json() == owned_tree(
                            tree->Array_0[k],
                        ) && values@[k].wf(),
                decreases items.len() - i,
            {
                proof {
                    assert(decreases_to!(*value => value->Array_0));
                    assert(decreases_to!(*value => value->Array_0@));
                    assert(decreases_to!(*value => value->Array_0@[i as int]));
                    assert(tree->Array_0[i as int] == items@[i as int].json());
                }
                values.push(jiter_to_serde(&items[i]));
                i += 1;
            }
            let owned = OwnedValue::Array(values);
            proof {
                assert(owned->Array_0 == values);
                assert(owned.json()->Array_0 =~= owned_tree(tree)->Array_0);
            }
            owned
        },
        JiterValue::Object(entries) => {
            let ghost tree = value@;
            let ghost members = owned_members(tree->Object_0);
            let mut map = ObjectMap::new();
            let mut i: usize = 0;
            assert(members.take(0) =~= Seq::empty());
            while i < entries.len()
                invariant
                    *value == JiterValue::Object(*entries),
                    tree == value@,
                    members == owned_members(tree->Object_0),
                    ownable(tree),
                    i <= entries.len(),
                    members.len() == entries.len(),
                    map@ == collected(members.take(i as int)),
                    map.wf(),
                decreases entries.len() - i,
            {
                proof {
                    assert(decreases_to!(*value => value->Object_0));
                    assert(decreases_to!(*value => value->Object_0@));
                    assert(decreases_to!(*value => value->Object_0@[i as int]));
                    assert(decreases_to!(*value => value->Object_0@[i as int].1));
                    assert(tree->Object_0[i as int].1 == entries@[i as int].1.json());
                    assert(members.take(i + 1).drop_last() =~= members.take(i as int));
                }
                map.insert(entries[i].0.clone(), jiter_to_serde(&entries[i].1));
                i += 1;
            }
            proof {
                assert(members.take(i as int) =~= members);
                crate::value::object_view(map);
            }
            OwnedValue::Object(map)
        },
    }
}

/// Whether a Python object whose containers are nested no deeper than `height` has
/// an owned value.
fn python_is_ownable_within(value: PythonValue<'_>, Ghost(height): Ghost<nat>) -> (yes: bool)
    requires
        value.wf(),
        finite_within(*value.heap, value.id, height),
    ensures
        yes == ownable(tree_within(*value.heap, value.id, height)),
    decreases height,
{
    let ghost heap = *value.heap;
    let ghost tree = tree_within(heap, value.id, height);
    match value.object() {
        PythonObject::Int(n) => integer_to_number(n).is_some(),
        PythonObject::List(items) | PythonObject::Tuple(items) => {
            let mut i: usize = 0;
            while i < items.len()
                invariant
                    value.wf(),
                    heap == *value.heap,
                    finite_within(heap, value.id, height),
                    tree == tree_within(heap, value.id, height),
                    sequence_items(value.spec_object()) == Some(items@),
                    references_below(value.spec_object(), heap.objects@.len()),
                    i <= items.len(),
                    forall|k: int| 0 <= k < i ==> ownable(#[trigger] tree->Array_0[k]),
                decreases items.len() - i,
            {
                let item = PythonValue { heap: value.heap, id: items[i] };
                assert(finite_within(heap, items@[i as int], (height - 1) as nat));
                assert(tree->Array_0[i as int] == tree_within(heap, item.id, (height - 1) as nat));
                if !python_is_ownable_within(item, Ghost((height - 1) as nat)) {
                    return false;
                }
                i += 1;
            }
            true
        },
        PythonObject::Dict(entries) => {
            let mut i: usize = 0;
            while i < entries.len()
                invariant
                    value.wf(),
                    heap == *value.heap,
                    finite_within(heap, value.id, height),
                    tree == tree_within(heap, value.id, height),
                    sequence_items(value.spec_object()) is None,
                    dict_entries(value.spec_object()) == Some(entries@),
                    references_below(value.spec_object(), heap.objects@.len()),
                    i <= entries.len(),
                    forall|k: int| 0 <= k < i ==> ownable((#[trigger] tree->Object_0[k]).1),
                decreases entries.len() - i,
            {
                let child = PythonValue { heap: value.heap, id: entries[i].1 };
                assert(finite_within(heap, entries@[i as int].1, (height - 1) as nat));
                assert(tree->Object_0[i as int].1 == tree_within(
                    heap,
                    child.id,
                    (height - 1) as nat,
                ));
                if !python_is_ownable_within(child, Ghost((height - 1) as nat)) {
                    return false;
                }
                i += 1;
            }
            true
        },
        _ => true,
    }
}

/// Whether a Python object has an owned value.
pub fn python_is_ownable(value: PythonValue<'_>) -> (yes: bool)
    requires
        value.wf(),
        is_finite(*value.heap, value.id),
    ensures
        yes == ownable(python_tree(*value.heap, value.id)),
{
    python_is_ownable_within(
        value,
        Ghost(choose|height: nat| finite_within(*value.heap, value.id, height)),
    )
}

/// The text of a key; a key that is no string, or has no UTF-8 encoding, counts as
/// the empty text.
pub fn python_key(key: PythonValue<'_>) -> (text: String)
    requires
        key.wf(),
    ensures
        text@ == key_text(*key.heap, key.id),
{
    match key.object() {
        PythonObject::Str(Some(text)) => text.clone(),
        _ => String::new(),
    }
}

/// The owned value for a Python object whose containers are nested no deeper than
/// `height`.
fn python_to_serde_within(value: PythonValue<'_>, Ghost(height): Ghost<nat>) -> (owned: OwnedValue)
    requires
        value.wf(),
        finite_within(*value.heap, value.id, height),
        ownable(tree_within(*value.heap, value.id, height)),
    ensures
        owned@ == owned_tree(tree_within(*value.heap, value.id, height)),
        owned.wf(),
    decreases height,
{
    let ghost heap = *value.heap;
    let ghost tree = tree_within(heap, value.id, height);
    match value.object() {
        PythonObject::NoneObject | PythonObject::Other => OwnedValue::Null,
        PythonObject::Bool(b) => OwnedValue::Bool(*b),
        PythonObject::Str(text) => match text {
            Some(text) => OwnedValue::String(text.clone()),
            None => OwnedValue::Null,
        },
        PythonObject::Int(n) => OwnedValue::Number(integer_to_number(n).unwrap()),
        PythonObject::Float(f) => match OwnedNumber::from_f64(*f) {
            Some(number) => OwnedValue::Number(number),
            None => OwnedValue::Null,
        },
        PythonObject::List(items) | PythonObject::Tuple(items) => {
            let mut values: Vec<OwnedValue> = Vec::new();
            let mut i: usize = 0;
            while i < items.len()
                invariant
                    value.wf(),
                    heap == *value.heap,
                    finite_within(heap, value.id, height),
                    tree == tree_within(heap, value.id, height),
                    ownable(tree),
                    sequence_items(value.spec_object()) == Some(items@),
                    references_below(value.spec_object(), heap.objects@.len()),
                    i <= items.len(),
                    values.len() == i,
                    forall|k: int|
                        0 <= k < i ==> (#[trigger] values@[k]).json() == owned_tree(
                            tree->Array_0[k],
                        ) && values@[k].wf(),
                decreases items.len() - i,
            {
                let item = PythonValue { heap: value.heap, id: items[i] };
                assert(finite_within(heap, items@[i as int], (height - 1) as nat));
                assert(tree->Array_0[i as int] == tree_within(heap, item.id, (height - 1) as nat));
                values.push(python_to_serde_within(item, Ghost((height - 1) as nat)));
                i += 1;
            }
            let owned = OwnedValue::Array(values);
            proof {
                assert(owned->Array_0 == values);
                assert(owned.json()->Array_0 =~= owned_tree(tree)->Array_0);
            }
            owned
        },
        PythonObject::Dict(entries) => {
            let ghost members = owned_members(tree->Object_0);
            let mut map = ObjectMap::new();
            let mut i: usize = 0;
            assert(members.take(0) =~= Seq::empty());
            while i < entries.len()
                invariant
                    value.wf(),
                    heap == *value.heap,
                    finite_within(heap, value.id, height),
                    tree == tree_within(heap, value.id, height),
                    ownable(tree),
                    sequence_items(value.spec_object()) is None,
                    dict_entries(value.spec_object()) == Some(entries@),
                    references_below(value.spec_object(), heap.objects@.len()),
                    members == owned_members(tree->Object_0),
                    members.len() == entries.len(),
                    i <= entries.len(),
                    map@ == collected(members.take(i as int)),
                    map.wf(),
                decreases entries.len() - i,
            {
                let key = PythonValue { heap: value.heap, id: entries[i].0 };
                let child = PythonValue { heap: value.heap, id: entries[i].1 };
                proof {
                    assert(finite_within(heap, entries@[i as int].1, (height - 1) as nat));
                    assert(tree->Object_0[i as int].1 == tree_within(
                        heap,
                        child.id,
                        (height - 1) as nat,
                    ));
                    assert(members.take(i + 1).drop_last() =~= members.take(i as int));
                }
                map.insert(
                    python_key(key),
                    python_to_serde_within(child, Ghost((height - 1) as nat)),
                );
                i += 1;
            }
            proof {
                assert(members.take(i as int) =~= members);
                crate::value::object_view(map);
            }
            OwnedValue::Object(map)
        },
    }
}

/// The owned value for a Python object. What is not a value of JSON becomes null.
pub fn python_to_serde(value: PythonValue<'_>) -> (owned: OwnedValue)
    requires
        value.wf(),
        is_finite(*value.heap, value.id),
        ownable(python_tree(*value.heap, value.id)),
    ensures
        owned@ == owned_tree(python_tree(*value.heap, value.id)),
        owned.wf(),
{
    python_to_serde_within(
        value,
        Ghost(choose|height: nat| finite_within(*value.heap, value.id, height)),
    )
}

} // verus!
