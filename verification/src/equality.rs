//! Laws of JSON Schema equality.

use crate::float64::is_int_unique;
use crate::instance::{InstanceRef, InstanceRepr};
use crate::jiter_values::JiterValue;
use crate::python::{
    dict_entries, dict_tree, json_children, json_is_finite, sequence_items, sequence_tree,
};
use crate::rounding::nearest_is_exact;
use crate::value::{
    array_view, keys_distinct, lookup, lookup_first, lookup_present, object_view, Json, Num,
    OwnedValue,
};
use vstd::prelude::*;

verus! {

/// JSON Schema equality of trees: numbers by their mathematical value, arrays item by
/// item, and objects by their keys, whatever their order.
pub open spec fn json_equal(a: Json, b: Json) -> bool
    decreases b,
{
    match (a, b) {
        (Json::Null, Json::Null) => true,
        (Json::Bool(x), Json::Bool(y)) => x == y,
        (Json::Number(x), Json::Number(y)) => x.equals(y),
        (Json::Str(x), Json::Str(y)) => x == y,
        (Json::Array(x), Json::Array(y)) => x.len() == y.len() && forall|i: int|
            0 <= i < y.len() ==> json_equal(x[i], #[trigger] y[i]),
        (Json::Object(x), Json::Object(y)) => x.len() == y.len() && forall|i: int|
            0 <= i < y.len() ==> match lookup(x, (#[trigger] y[i]).0) {
                Some(value) => json_equal(value, y[i].1),
                None => false,
            },
        _ => false,
    }
}

/// Where two lists have the same keys, a key is found at one and the same place.
pub proof fn lookup_aligned<A, B>(
    a: Seq<(Seq<char>, A)>,
    b: Seq<(Seq<char>, B)>,
    key: Seq<char>,
) -> (k: int)
    requires
        a.len() == b.len(),
        forall|i: int| 0 <= i < a.len() ==> (#[trigger] a[i]).0 == b[i].0,
    ensures
        lookup(a, key) is Some <==> lookup(b, key) is Some,
        lookup(a, key) is Some ==> 0 <= k < a.len() && a[k].0 == key && lookup(a, key) == Some(
            a[k].1,
        ) && lookup(b, key) == Some(b[k].1),
    decreases a.len(),
{
    if a.len() == 0 || a[0].0 == key {
        0
    } else {
        let (rest_a, rest_b) = (a.drop_first(), b.drop_first());
        assert forall|i: int| 0 <= i < rest_a.len() implies (#[trigger] rest_a[i]).0
            == rest_b[i].0 by {
            assert(rest_a[i] == a[i + 1]);
        }
        assert(b[0].0 == a[0].0);
        lookup_aligned(rest_a, rest_b, key) + 1
    }
}

/// Whether a view is of the value of JSON whose tree is given.
pub open spec fn shows(view: InstanceRef<'_>, tree: Json) -> bool {
    view.spec_is_json() && view.tree() == tree
}

/// The parts of a view show the parts of its tree.
pub proof fn parts_show_tree(view: InstanceRef<'_>)
    requires
        view.spec_is_json(),
    ensures
        view.spec_is_null() <==> view.tree() is Null,
        match view.tree() {
            Json::Bool(b) => view.spec_as_bool() == Some(b),
            _ => view.spec_as_bool() is None,
        },
        match view.tree() {
            Json::Number(n) => view.spec_as_number() is Some && view.spec_as_number()->0@ == n,
            _ => view.spec_as_number() is None,
        },
        match view.tree() {
            Json::Str(s) => view.spec_as_str() == Some(s),
            _ => view.spec_as_str() is None,
        },
        match view.tree() {
            Json::Array(items) => view.spec_items() is Some && view.spec_items()->0.len()
                == items.len() && forall|i: int|
                0 <= i < items.len() ==> shows(#[trigger] view.spec_items()->0[i], items[i]),
            _ => view.spec_items() is None,
        },
        match view.tree() {
            Json::Object(members) => view.spec_entries() is Some && view.spec_entries()->0.len()
                == members.len() && forall|i: int|
                0 <= i < members.len() ==> (#[trigger] view.spec_entries()->0[i]).0 == members[i].0
                    && shows(view.spec_entries()->0[i].1, members[i].1),
            _ => view.spec_entries() is None,
        },
{
    match view.repr {
        InstanceRepr::Serde(value) => {
            match *value {
                OwnedValue::Array(items) => array_view(items),
                OwnedValue::Object(map) => object_view(map),
                _ => {},
            }
        },
        InstanceRepr::Jiter(value) => {
            match *value {
                JiterValue::Array(items) => {
                    assert(value->Array_0 == items);
                },
                JiterValue::Object(entries) => {
                    assert(value->Object_0 == entries);
                },
                _ => {},
            }
        },
        InstanceRepr::Python(value) => {
            let heap = *value.heap;
            json_is_finite(heap, value.id);
            json_children(heap, value.id);
            let height = choose|height: nat| crate::python::json_within(heap, value.id, height);
            if sequence_items(value.spec_object()) is Some {
                sequence_tree(heap, value.id);
            } else if dict_entries(value.spec_object()) is Some {
                dict_tree(heap, value.id);
            }
        },
    }
}

/// Equality does not depend on how a value is held: a view equals what its tree equals.
pub proof fn equality_is_of_trees(view: InstanceRef<'_>, expected: Json)
    requires
        view.spec_is_json(),
    ensures
        view.equals_json(expected) == json_equal(view.tree(), expected),
    decreases expected,
{
    parts_show_tree(view);
    match expected {
        Json::Array(items) => {
            if view.spec_items() is Some && view.spec_items()->0.len() == items.len() {
                assert forall|i: int| 0 <= i < items.len() implies (
                view.spec_items()->0[i].equals_json(#[trigger] items[i]) <==> json_equal(
                    view.tree()->Array_0[i],
                    items[i],
                )) by {
                    assert(decreases_to!(expected => expected->Array_0[i]));
                    assert(shows(view.spec_items()->0[i], view.tree()->Array_0[i]));
                    equality_is_of_trees(view.spec_items()->0[i], items[i]);
                }
            }
        },
        Json::Object(members) => {
            if view.spec_entries() is Some {
                let entries = view.spec_entries()->0;
                let tree = view.tree()->Object_0;
                assert forall|i: int| 0 <= i < members.len() implies (match lookup(
                    entries,
                    (#[trigger] members[i]).0,
                ) {
                    Some(value) => value.equals_json(members[i].1),
                    None => false,
                } <==> match lookup(tree, members[i].0) {
                    Some(value) => json_equal(value, members[i].1),
                    None => false,
                }) by {
                    let k = lookup_aligned(entries, tree, members[i].0);
                    assert(decreases_to!(expected => expected->Object_0[i]));
                    assert(decreases_to!(expected => expected->Object_0[i].1));
                    if lookup(entries, members[i].0) is Some {
                        assert(shows(entries[k].1, tree[k].1));
                        equality_is_of_trees(entries[k].1, members[i].1);
                    }
                }
            }
        },
        _ => {},
    }
}

/// Equality of numbers goes both ways.
pub proof fn number_equality_is_symmetric(a: Num, b: Num)
    ensures
        a.equals(b) == b.equals(a),
{
}

/// What equals an equal number is equal.
pub proof fn number_equality_is_transitive(a: Num, b: Num, c: Num)
    requires
        a.equals(b),
        b.equals(c),
    ensures
        a.equals(c),
{
    if let (Num::Int(x), Num::Float(f), Num::Int(y)) = (a, b, c) {
        is_int_unique(f, x, y);
    }
}

/// Equal numbers are alike in being integers, and their nearest floats are equal.
pub proof fn equal_numbers_are_alike(a: Num, b: Num)
    requires
        a.equals(b),
    ensures
        a.is_integer() == b.is_integer(),
        a.to_float().spec_equals(b.to_float()),
{
    match (a, b) {
        (Num::Int(n), Num::Float(f)) => {
            is_int_unique(f, n, n);
            nearest_is_exact(n, f);
        },
        (Num::Float(f), Num::Int(n)) => {
            is_int_unique(f, n, n);
            nearest_is_exact(n, f);
        },
        _ => {},
    }
}

/// Whether no object in a tree has two members with one key.
pub open spec fn keys_unique(tree: Json) -> bool
    decreases tree,
{
    match tree {
        Json::Array(items) => forall|i: int|
            0 <= i < items.len() ==> keys_unique(#[trigger] items[i]),
        Json::Object(members) => keys_distinct(members) && forall|i: int|
            0 <= i < members.len() ==> keys_unique((#[trigger] members[i]).1),
        _ => true,
    }
}

/// Whether every number in a tree has a value: none is a NaN.
pub open spec fn numbers_defined(tree: Json) -> bool
    decreases tree,
{
    match tree {
        Json::Number(Num::Float(f)) => !f.spec_is_nan(),
        Json::Array(items) => forall|i: int|
            0 <= i < items.len() ==> numbers_defined(#[trigger] items[i]),
        Json::Object(members) => forall|i: int|
            0 <= i < members.len() ==> numbers_defined((#[trigger] members[i]).1),
        _ => true,
    }
}

/// Where no key occurs twice, the value of each member is found under its key.
pub proof fn lookup_distinct<V>(members: Seq<(Seq<char>, V)>, k: int)
    requires
        keys_distinct(members),
        0 <= k < members.len(),
    ensures
        lookup(members, members[k].0) == Some(members[k].1),
{
    assert forall|i: int| 0 <= i < k implies (#[trigger] members[i]).0 != members[k].0 by {}
    lookup_first(members, members[k].0, k);
}

/// A value equals itself.
pub proof fn equality_is_reflexive(tree: Json)
    requires
        keys_unique(tree),
        numbers_defined(tree),
    ensures
        json_equal(tree, tree),
    decreases tree,
{
    match tree {
        Json::Array(items) => {
            assert forall|i: int| 0 <= i < items.len() implies json_equal(
                items[i],
                #[trigger] items[i],
            ) by {
                assert(decreases_to!(tree => tree->Array_0[i]));
                equality_is_reflexive(items[i]);
            }
        },
        Json::Object(members) => {
            assert forall|i: int| 0 <= i < members.len() implies (match lookup(
                members,
                (#[trigger] members[i]).0,
            ) {
                Some(value) => json_equal(value, members[i].1),
                None => false,
            }) by {
                lookup_distinct(members, i);
                assert(decreases_to!(tree => tree->Object_0[i]));
                assert(decreases_to!(tree => tree->Object_0[i].1));
                equality_is_reflexive(members[i].1);
            }
        },
        _ => {},
    }
}

/// What equals an equal value is equal.
pub proof fn equality_is_transitive(a: Json, b: Json, c: Json)
    requires
        json_equal(a, b),
        json_equal(b, c),
    ensures
        json_equal(a, c),
    decreases c,
{
    match (a, b, c) {
        (Json::Number(x), Json::Number(y), Json::Number(z)) => {
            number_equality_is_transitive(x, y, z);
        },
        (Json::Array(x), Json::Array(y), Json::Array(z)) => {
            assert forall|i: int| 0 <= i < z.len() implies json_equal(x[i], #[trigger] z[i]) by {
                assert(decreases_to!(c => c->Array_0[i]));
                assert(json_equal(x[i], y[i]));
                assert(json_equal(y[i], z[i]));
                equality_is_transitive(x[i], y[i], z[i]);
            }
        },
        (Json::Object(x), Json::Object(y), Json::Object(z)) => {
            assert forall|i: int| 0 <= i < z.len() implies (match lookup(
                x,
                (#[trigger] z[i]).0,
            ) {
                Some(value) => json_equal(value, z[i].1),
                None => false,
            }) by {
                let k = lookup_aligned(y, y, z[i].0);
                assert(y[k].0 == z[i].0);
                assert(decreases_to!(c => c->Object_0[i]));
                assert(decreases_to!(c => c->Object_0[i].1));
                equality_is_transitive(lookup(x, z[i].0)->0, y[k].1, z[i].1);
            }
        },
        _ => {},
    }
}

/// Where one list has as many members as another with distinct keys, and all of its
/// keys, the two have the same keys, and the keys of both are distinct.
pub proof fn same_keys<A, B>(x: Seq<(Seq<char>, A)>, y: Seq<(Seq<char>, B)>)
    requires
        x.len() == y.len(),
        keys_distinct(y),
        forall|i: int| 0 <= i < y.len() ==> lookup(x, (#[trigger] y[i]).0) is Some,
    ensures
        keys_distinct(x),
        forall|j: int| 0 <= j < x.len() ==> lookup(y, (#[trigger] x[j]).0) is Some,
{
    let kx = Seq::new(x.len(), |i: int| x[i].0);
    let ky = Seq::new(y.len(), |i: int| y[i].0);
    assert(ky.no_duplicates()) by {
        assert forall|i: int, j: int| 0 <= i < ky.len() && 0 <= j < ky.len() && i != j implies ky[i]
            != ky[j] by {
            if i < j {
                assert(y[i].0 != y[j].0);
            } else {
                assert(y[j].0 != y[i].0);
            }
        }
    }
    ky.unique_seq_to_set();
    kx.lemma_cardinality_of_set();
    vstd::seq_lib::seq_to_set_is_finite(kx);
    vstd::seq_lib::seq_to_set_is_finite(ky);
    assert(ky.to_set().subset_of(kx.to_set())) by {
        assert forall|key: Seq<char>| ky.to_set().contains(key) implies kx.to_set().contains(
            key,
        ) by {
            let i = choose|i: int| 0 <= i < ky.len() && ky[i] == key;
            assert(lookup(x, y[i].0) is Some);
            let k = lookup_aligned(x, x, key);
            assert(kx[k] == key);
        }
    }
    vstd::set_lib::lemma_len_subset(ky.to_set(), kx.to_set());
    vstd::set_lib::lemma_subset_equality(ky.to_set(), kx.to_set());
    kx.lemma_no_dup_set_cardinality();
    assert forall|i: int, j: int| 0 <= i < j < x.len() implies #[trigger] x[i].0
        != #[trigger] x[j].0 by {
        assert(kx[i] != kx[j]);
    }
    assert forall|j: int| 0 <= j < x.len() implies lookup(y, (#[trigger] x[j]).0) is Some by {
        assert(kx[j] == x[j].0);
        assert(kx.to_set().contains(x[j].0));
        assert(ky.to_set().contains(x[j].0));
        let i = choose|i: int| 0 <= i < ky.len() && ky[i] == x[j].0;
        lookup_present(y, x[j].0, i);
    }
}

/// Equality with a value that has no key twice goes both ways.
pub proof fn equality_is_symmetric(a: Json, b: Json)
    requires
        json_equal(a, b),
        keys_unique(b),
    ensures
        json_equal(b, a),
    decreases b,
{
    match (a, b) {
        (Json::Array(x), Json::Array(y)) => {
            assert forall|i: int| 0 <= i < x.len() implies json_equal(y[i], #[trigger] x[i]) by {
                assert(decreases_to!(b => b->Array_0[i]));
                assert(json_equal(x[i], y[i]));
                equality_is_symmetric(x[i], y[i]);
            }
        },
        (Json::Object(x), Json::Object(y)) => {
            same_keys(x, y);
            assert forall|j: int| 0 <= j < x.len() implies (match lookup(
                y,
                (#[trigger] x[j]).0,
            ) {
                Some(value) => json_equal(value, x[j].1),
                None => false,
            }) by {
                let i = lookup_aligned(y, y, x[j].0);
                lookup_distinct(x, j);
                assert(y[i].0 == x[j].0);
                assert(decreases_to!(b => b->Object_0[i]));
                assert(decreases_to!(b => b->Object_0[i].1));
                equality_is_symmetric(x[j].1, y[i].1);
            }
        },
        _ => {},
    }
}

} // verus!
