//! Laws of JSON Schema equality between a view and a value: what makes the two equal, what
//! makes them differ, and how the answers to related questions are related.

use crate::array::ArrayRef;
use crate::equality::{lookup_distinct, same_keys};
use crate::float64::scale_unit;
use crate::instance::InstanceRef;
use crate::number::NumberRef;
use crate::object::ObjectRef;
use crate::value::{
    array_view, keys_distinct, lookup, object_view, Json, Num, ObjectMap, OwnedNumber, OwnedValue,
};
use vstd::arithmetic::power2::*;
use vstd::prelude::*;

verus! {

/// An array and a view are equal exactly where the view is of an array of as many items, and
/// each of these equals the item at its place.
pub proof fn arrays_are_equal_at_every_index(
    view: InstanceRef<'_>,
    array: Option<ArrayRef<'_>>,
    expected: &OwnedValue,
    items: Vec<OwnedValue>,
    equal: bool,
)
    requires
        *expected == OwnedValue::Array(items),
        call_ensures(InstanceRef::as_array, (view,), array),
        call_ensures(InstanceRef::equals, (view, expected), equal),
    ensures
        equal ==> array is Some && array->0@.len() == items@.len(),
        equal ==> forall|i: int, e: bool|
            0 <= i < items@.len() && #[trigger] call_ensures(
                InstanceRef::equals,
                (array->0@[i], &items@[i]),
                e,
            ) ==> e,
        !equal && array is Some && array->0@.len() == items@.len() ==> exists|i: int|
            0 <= i < items@.len() && !array->0@[i].equals_json((#[trigger] items@[i])@),
{
    array_view(items);
    if array is Some && array->0@.len() == items@.len() {
        let trees = expected@->Array_0;
        assert(expected@ == Json::Array(trees));
        assert forall|i: int| 0 <= i < items@.len() implies #[trigger] trees[i] == items@[i]@ by {}
        if !equal {
            let i = choose|i: int|
                0 <= i < trees.len() && !array->0@[i].equals_json(#[trigger] trees[i]);
            assert(!array->0@[i].equals_json(items@[i]@));
        } else {
            assert forall|i: int, e: bool|
                0 <= i < items@.len() && #[trigger] call_ensures(
                    InstanceRef::equals,
                    (array->0@[i], &items@[i]),
                    e,
                ) implies e by {
                assert(array->0@[i].equals_json(trees[i]));
            }
        }
    }
}

/// One item decides: where a view equals an array, it equals the array with another item in
/// one place exactly where what it has in that place equals the other item.
pub proof fn a_replaced_item_decides(
    view: InstanceRef<'_>,
    items: Seq<Json>,
    i: int,
    item: Json,
)
    requires
        view.equals_json(Json::Array(items)),
        0 <= i < items.len(),
    ensures
        view.spec_items() is Some,
        view.equals_json(Json::Array(items.update(i, item)))
            <==> view.spec_items()->0[i].equals_json(item),
{
    let views = view.spec_items()->0;
    let changed = Json::Array(items.update(i, item));
    let before = Json::Array(items);
    assert(changed->Array_0[i] == item);
    if views[i].equals_json(item) {
        assert forall|k: int| 0 <= k < items.len() implies views[k].equals_json(
            #[trigger] changed->Array_0[k],
        ) by {
            if k != i {
                assert(views[k].equals_json(before->Array_0[k]));
            }
        }
    }
}

/// The number of items counts: no view equals an array and also a longer one that begins with
/// it.
pub proof fn a_further_item_makes_a_difference(view: InstanceRef<'_>, items: Seq<Json>, item: Json)
    ensures
        !(view.equals_json(Json::Array(items)) && view.equals_json(Json::Array(items.push(item)))),
{
    assert(Json::Array(items.push(item))->Array_0.len() == items.len() + 1);
}

/// An object and a view are equal exactly where the view is of an object of as many members,
/// and what it has under each key equals the value there.
pub proof fn objects_are_equal_at_every_key(
    view: InstanceRef<'_>,
    object: Option<ObjectRef<'_>>,
    expected: &OwnedValue,
    map: ObjectMap,
    equal: bool,
)
    requires
        *expected == OwnedValue::Object(map),
        expected.wf(),
        call_ensures(InstanceRef::as_object, (view,), object),
        call_ensures(InstanceRef::equals, (view, expected), equal),
    ensures
        equal ==> object is Some && object->0@.len() == map.entries@.len(),
        equal ==> forall|i: int|
            0 <= i < map.entries@.len() ==> exists|k: int|
                0 <= k < object->0@.len() && (#[trigger] object->0@[k]).0 == (
                #[trigger] map.entries@[i]).0@ && object->0@[k].1.equals_json(map.entries@[i].1@),
        equal ==> forall|k: int|
            0 <= k < object->0@.len() ==> exists|i: int|
                0 <= i < map.entries@.len() && (#[trigger] map.entries@[i]).0@ == (
                #[trigger] object->0@[k]).0 && object->0@[k].1.equals_json(map.entries@[i].1@),
        !equal && object is Some && object->0@.len() == map.entries@.len() ==> exists|i: int|
            0 <= i < map.entries@.len() && match lookup(
                object->0@,
                (#[trigger] map.entries@[i]).0@,
            ) {
                Some(value) => !value.equals_json(map.entries@[i].1@),
                None => true,
            },
{
    object_view(map);
    let members = map@;
    let tree = expected@;
    assert(tree->Object_0 == members);
    if object is Some && object->0@.len() == map.entries@.len() {
        let entries = object->0@;
        if equal {
            assert(keys_distinct(members)) by {
                assert(expected->Object_0 == map);
                assert forall|i: int, j: int| 0 <= i < j < members.len() implies #[trigger] members[
                i].0 != #[trigger] members[j].0 by {
                    assert(crate::text::text_less(map.entries@[i].0@, map.entries@[j].0@));
                    crate::text::text_less_irreflexive(map.entries@[i].0@);
                }
            }
            assert forall|i: int| 0 <= i < members.len() implies lookup(
                entries,
                (#[trigger] members[i]).0,
            ) is Some && lookup(entries, members[i].0)->0.equals_json(members[i].1) by {
                assert(tree->Object_0[i] == members[i]);
            }
            same_keys(entries, members);
            assert forall|i: int| 0 <= i < map.entries@.len() implies exists|k: int|
                0 <= k < entries.len() && (#[trigger] entries[k]).0 == (
                #[trigger] map.entries@[i]).0@ && entries[k].1.equals_json(map.entries@[i].1@) by {
                assert(members[i] == (map.entries@[i].0@, map.entries@[i].1@));
                let k = crate::equality::lookup_aligned(entries, entries, members[i].0);
                assert(entries[k].0 == map.entries@[i].0@);
            }
            assert forall|k: int| 0 <= k < entries.len() implies exists|i: int|
                0 <= i < map.entries@.len() && (#[trigger] map.entries@[i]).0@ == (
                #[trigger] entries[k]).0 && entries[k].1.equals_json(map.entries@[i].1@) by {
                assert(lookup(members, entries[k].0) is Some);
                let i = crate::equality::lookup_aligned(members, members, entries[k].0);
                assert(members[i] == (map.entries@[i].0@, map.entries@[i].1@));
                lookup_distinct(entries, k);
                assert(map.entries@[i].0@ == entries[k].0);
            }
        } else {
            let i = choose|i: int|
                0 <= i < members.len() && !(match lookup(entries, (#[trigger] members[i]).0) {
                    Some(value) => value.equals_json(members[i].1),
                    None => false,
                });
            assert(members[i] == (map.entries@[i].0@, map.entries@[i].1@));
        }
    }
}

/// One value decides: where a view equals an object, it equals the object with another value
/// under one of its keys exactly where what it has under that key equals the other value.
pub proof fn a_replaced_value_decides(
    view: InstanceRef<'_>,
    members: Seq<(Seq<char>, Json)>,
    i: int,
    value: Json,
)
    requires
        view.equals_json(Json::Object(members)),
        keys_distinct(members),
        0 <= i < members.len(),
    ensures
        view.spec_entries() is Some,
        lookup(view.spec_entries()->0, members[i].0) is Some,
        view.equals_json(Json::Object(members.update(i, (members[i].0, value)))) <==> lookup(
            view.spec_entries()->0,
            members[i].0,
        )->0.equals_json(value),
{
    let entries = view.spec_entries()->0;
    let before = Json::Object(members);
    let changed = Json::Object(members.update(i, (members[i].0, value)));
    assert(before->Object_0[i] == members[i]);
    assert(changed->Object_0[i] == (members[i].0, value));
    if lookup(entries, members[i].0)->0.equals_json(value) {
        assert forall|k: int| 0 <= k < members.len() implies (match lookup(
            entries,
            (#[trigger] changed->Object_0[k]).0,
        ) {
            Some(found) => found.equals_json(changed->Object_0[k].1),
            None => false,
        }) by {
            if k != i {
                assert(before->Object_0[k] == changed->Object_0[k]);
            }
        }
    }
}

/// The number of members counts: no view equals an object and also one with a further member.
pub proof fn a_further_member_makes_a_difference(
    view: InstanceRef<'_>,
    members: Seq<(Seq<char>, Json)>,
    member: (Seq<char>, Json),
)
    ensures
        !(view.equals_json(Json::Object(members)) && view.equals_json(
            Json::Object(members.push(member)),
        )),
{
    assert(Json::Object(members.push(member))->Object_0.len() == members.len() + 1);
}

/// The order of the members does not count: a view that equals an object equals it with any
/// two of its members exchanged.
pub proof fn exchanged_members_make_no_difference(
    view: InstanceRef<'_>,
    members: Seq<(Seq<char>, Json)>,
    i: int,
    j: int,
)
    requires
        view.equals_json(Json::Object(members)),
        0 <= i < members.len(),
        0 <= j < members.len(),
    ensures
        view.equals_json(Json::Object(members.update(i, members[j]).update(j, members[i]))),
{
    let before = Json::Object(members);
    let changed = Json::Object(members.update(i, members[j]).update(j, members[i]));
    let entries = view.spec_entries()->0;
    assert(changed->Object_0.len() == members.len());
    assert forall|k: int| 0 <= k < members.len() implies (match lookup(
        entries,
        (#[trigger] changed->Object_0[k]).0,
    ) {
        Some(found) => found.equals_json(changed->Object_0[k].1),
        None => false,
    }) by {
        let from = if k == j {
            i
        } else if k == i {
            j
        } else {
            k
        };
        assert(changed->Object_0[k] == before->Object_0[from]);
    }
}

/// Null, booleans and texts are equal exactly where they are the same.
pub proof fn scalars_are_equal_where_they_are_the_same(
    view: InstanceRef<'_>,
    expected: &OwnedValue,
    equal: bool,
    null: bool,
    boolean: Option<bool>,
    text: Option<&str>,
)
    requires
        call_ensures(InstanceRef::equals, (view, expected), equal),
        call_ensures(InstanceRef::is_null, (view,), null),
        call_ensures(InstanceRef::as_bool, (view,), boolean),
        call_ensures(InstanceRef::as_str, (view,), text),
    ensures
        expected is Null ==> equal == null,
        *expected matches OwnedValue::Bool(b) ==> equal == (boolean == Some(b)),
        *expected matches OwnedValue::String(s) ==> equal == (text is Some && text->0@ == s@),
{
}

/// Whether a number has a value, in units of the smallest positive float.
pub open spec fn has_value(number: Num, value: int) -> bool {
    match number {
        Num::Int(n) => value == n * scale_unit(),
        Num::Float(f) => f.spec_is_finite() && value == f.spec_scaled(),
    }
}

/// Numbers are equal exactly where they have one and the same value, however they are held.
pub proof fn numbers_are_equal_by_value(
    view: InstanceRef<'_>,
    number: Option<NumberRef<'_>>,
    expected: &OwnedValue,
    n: OwnedNumber,
    equal: bool,
)
    requires
        *expected == OwnedValue::Number(n),
        n.wf(),
        call_ensures(InstanceRef::equals, (view, expected), equal),
        call_ensures(InstanceRef::as_number, (view,), number),
    ensures
        equal <==> number is Some && exists|value: int| #[trigger]
            has_value(number->0@, value) && has_value(n@, value),
{
    lemma_pow2_pos(1074);
    if number is Some {
        let (a, b) = (number->0@, n@);
        if a.equals(b) {
            let value = match b {
                Num::Int(m) => m * scale_unit(),
                Num::Float(f) => f.spec_scaled(),
            };
            assert(has_value(a, value) && has_value(b, value));
        }
        if exists|value: int| #[trigger] has_value(a, value) && has_value(b, value) {
            let value = choose|value: int| #[trigger] has_value(a, value) && has_value(b, value);
            if let (Num::Int(x), Num::Int(y)) = (a, b) {
                assert(x == y) by (nonlinear_arith)
                    requires
                        x * scale_unit() == y * scale_unit(),
                        scale_unit() > 0,
                ;
            }
        }
    }
}

/// Values of different kinds are not equal.
pub proof fn equal_values_are_of_one_kind(
    view: InstanceRef<'_>,
    expected: &OwnedValue,
    null: bool,
    boolean: bool,
    number: bool,
    string: bool,
    array: bool,
    object: bool,
)
    requires
        call_ensures(InstanceRef::equals, (view, expected), true),
        call_ensures(InstanceRef::is_null, (view,), null),
        call_ensures(InstanceRef::is_boolean, (view,), boolean),
        call_ensures(InstanceRef::is_number, (view,), number),
        call_ensures(InstanceRef::is_string, (view,), string),
        call_ensures(InstanceRef::is_array, (view,), array),
        call_ensures(InstanceRef::is_object, (view,), object),
    ensures
        null == (expected is Null),
        boolean == (expected is Bool),
        number == (expected is Number),
        string == (expected is String),
        array == (expected is Array),
        object == (expected is Object),
{
}

/// Comparison with the items of an array, or with the members of an object, is comparison with
/// that array or object.
pub proof fn parts_are_compared_as_the_whole(
    view: InstanceRef<'_>,
    items: Vec<OwnedValue>,
    slice: &[OwnedValue],
    map: ObjectMap,
    by_array: bool,
    by_items: bool,
    by_object: bool,
    by_members: bool,
)
    requires
        slice@ == items@,
        call_ensures(InstanceRef::equals, (view, &OwnedValue::Array(items)), by_array),
        call_ensures(InstanceRef::equals_array, (view, slice), by_items),
        call_ensures(InstanceRef::equals, (view, &OwnedValue::Object(map)), by_object),
        call_ensures(InstanceRef::equals_object, (view, &map), by_members),
    ensures
        by_array == by_items,
        by_object == by_members,
{
    array_view(items);
    object_view(map);
}

} // verus!
