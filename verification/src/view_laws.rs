//! Laws of views: what is seen of a value, of its items and of its members is what was put there,
//! in whichever representation.

use crate::array::{ArrayIter, ArrayRef};
use crate::instance::{InstanceRef, InstanceRepr};
use crate::jiter_values::JiterValue;
use crate::number::NumberRef;
use crate::object::{ObjectIter, ObjectKeys, ObjectRef, ObjectValues};
use crate::python::{PythonObject, PythonValue};
use crate::value::{found_where_listed, lookup_first, Num, ObjectMap, OwnedValue};
use vstd::prelude::*;

verus! {

/// What can be seen of a value: which kind it is of, and what it holds.
pub struct Sight<'a> {
    pub null: bool,
    pub boolean: Option<bool>,
    pub text: Option<&'a str>,
    pub number: Option<NumberRef<'a>>,
    pub array: Option<ArrayRef<'a>>,
    pub object: Option<ObjectRef<'a>>,
}

/// Whether this is what calls on a view give.
pub open spec fn is_seen<'a>(view: InstanceRef<'a>, sight: Sight<'a>) -> bool {
    &&& call_ensures(InstanceRef::is_null, (view,), sight.null)
    &&& call_ensures(InstanceRef::as_bool, (view,), sight.boolean)
    &&& call_ensures(InstanceRef::as_str, (view,), sight.text)
    &&& call_ensures(InstanceRef::as_number, (view,), sight.number)
    &&& call_ensures(InstanceRef::as_array, (view,), sight.array)
    &&& call_ensures(InstanceRef::as_object, (view,), sight.object)
}

/// Of how many kinds a value is seen to be.
pub open spec fn kinds(sight: Sight<'_>) -> int {
    (if sight.null {
        1int
    } else {
        0
    }) + (if sight.boolean is Some {
        1int
    } else {
        0
    }) + (if sight.text is Some {
        1int
    } else {
        0
    }) + (if sight.number is Some {
        1int
    } else {
        0
    }) + (if sight.array is Some {
        1int
    } else {
        0
    }) + (if sight.object is Some {
        1int
    } else {
        0
    })
}

/// An owned value is of one kind, and what is seen of it is what it holds.
pub proof fn an_owned_value_is_seen_as_it_is<'a>(
    value: &'a OwnedValue,
    view: InstanceRef<'a>,
    sight: Sight<'a>,
)
    requires
        call_ensures(InstanceRef::from_serde, (value,), view),
        is_seen(view, sight),
    ensures
        kinds(sight) == 1,
        sight.null <==> *value is Null,
        *value matches OwnedValue::Bool(b) ==> sight.boolean == Some(b),
        *value matches OwnedValue::String(s) ==> sight.text is Some && sight.text->0@ == s@,
        *value matches OwnedValue::Number(n) ==> sight.number is Some && sight.number->0@ == n@,
        *value matches OwnedValue::Array(items) ==> sight.array is Some
            && sight.array->0@.len() == items@.len() && forall|i: int|
            0 <= i < items@.len() ==> (#[trigger] sight.array->0@[i]).repr == InstanceRepr::Serde(
                &items@[i],
            ),
        *value matches OwnedValue::Object(map) ==> sight.object is Some
            && sight.object->0@.len() == map.entries@.len() && forall|i: int|
            0 <= i < map.entries@.len() ==> (#[trigger] sight.object->0@[i]).0
                == map.entries@[i].0@ && sight.object->0@[i].1.repr == InstanceRepr::Serde(
                &map.entries@[i].1,
            ),
{
}

/// A value that `jiter` parsed is of one kind, and what is seen of it is what it holds.
pub proof fn a_parsed_value_is_seen_as_it_is<'a>(
    value: &'a JiterValue,
    view: InstanceRef<'a>,
    sight: Sight<'a>,
)
    requires
        call_ensures(InstanceRef::from_jiter, (value,), view),
        is_seen(view, sight),
    ensures
        kinds(sight) == 1,
        sight.null <==> *value is Null,
        *value matches JiterValue::Bool(b) ==> sight.boolean == Some(b),
        *value matches JiterValue::Str(s) ==> sight.text is Some && sight.text->0@ == s@,
        *value matches JiterValue::Int(n) ==> sight.number == Some(NumberRef::Integer(n))
            && sight.number->0@ == Num::Int(n as int),
        *value matches JiterValue::BigInt(n) ==> sight.number == Some(NumberRef::BigInteger(&n))
            && sight.number->0@ == Num::Int(n@),
        *value matches JiterValue::Float(f) ==> sight.number == Some(NumberRef::Float(f))
            && sight.number->0@ == Num::Float(f),
        *value matches JiterValue::Array(items) ==> sight.array is Some
            && sight.array->0@.len() == items@.len() && forall|i: int|
            0 <= i < items@.len() ==> (#[trigger] sight.array->0@[i]).repr == InstanceRepr::Jiter(
                &items@[i],
            ),
        *value matches JiterValue::Object(entries) ==> sight.object is Some
            && sight.object->0@.len() == entries@.len() && forall|i: int|
            0 <= i < entries@.len() ==> (#[trigger] sight.object->0@[i]).0 == entries@[i].0@
                && sight.object->0@[i].1.repr == InstanceRepr::Jiter(&entries@[i].1),
{
}

/// A Python object is of one kind where JSON has it, else of none: a float that is not finite, a
/// string without a text, and an object of any other type are of no kind. A `list` and a `tuple`
/// are arrays, a `dict` is an object, a `bool` is no number, and what is seen of each is what it
/// holds; a key that is no string with a text is seen as the empty text.
pub proof fn a_python_object_is_seen_as_it_is<'a>(
    value: PythonValue<'a>,
    object: PythonObject,
    view: InstanceRef<'a>,
    sight: Sight<'a>,
)
    requires
        value.wf(),
        value.heap.objects@[value.id as int] == object,
        call_ensures(InstanceRef::from_python, (value,), view),
        is_seen(view, sight),
    ensures
        kinds(sight) == (match object {
            PythonObject::Other => 0int,
            PythonObject::Float(f) => if f.spec_is_finite() {
                1
            } else {
                0
            },
            PythonObject::Str(None) => 0,
            _ => 1,
        }),
        sight.null <==> object is NoneObject,
        object matches PythonObject::Bool(b) ==> sight.boolean == Some(b),
        object matches PythonObject::Str(Some(s)) ==> sight.text is Some && sight.text->0@ == s@,
        object matches PythonObject::Int(n) ==> sight.number is Some && sight.number->0@
            == Num::Int(n@) && sight.number->0 !is BigInteger,
        object matches PythonObject::Float(f) ==> f.spec_is_finite() ==> sight.number is Some
            && sight.number->0@ == Num::Float(f),
        object matches PythonObject::List(items) ==> sight.array is Some
            && sight.array->0@.len() == items@.len() && forall|i: int|
            0 <= i < items@.len() ==> (#[trigger] sight.array->0@[i]).repr == InstanceRepr::Python(
                PythonValue { heap: value.heap, id: items@[i] },
            ),
        object matches PythonObject::Tuple(items) ==> sight.array is Some
            && sight.array->0@.len() == items@.len() && forall|i: int|
            0 <= i < items@.len() ==> (#[trigger] sight.array->0@[i]).repr == InstanceRepr::Python(
                PythonValue { heap: value.heap, id: items@[i] },
            ),
        object matches PythonObject::Dict(entries) ==> sight.object is Some
            && sight.object->0@.len() == entries@.len() && forall|i: int|
            0 <= i < entries@.len() ==> (#[trigger] sight.object->0@[i]).0 == (
            match value.heap.objects@[entries@[i].0 as int] {
                PythonObject::Str(Some(key)) => key@,
                _ => Seq::empty(),
            }) && sight.object->0@[i].1.repr == InstanceRepr::Python(
                PythonValue { heap: value.heap, id: entries@[i].1 },
            ),
{
}

/// Each question about the kind of a value is answered as the question for what it holds.
pub proof fn a_value_is_of_a_kind_where_it_holds_what_the_kind_has(
    view: InstanceRef<'_>,
    sight: Sight<'_>,
    boolean: bool,
    string: bool,
    number: bool,
    array: bool,
    object: bool,
)
    requires
        is_seen(view, sight),
        call_ensures(InstanceRef::is_boolean, (view,), boolean),
        call_ensures(InstanceRef::is_string, (view,), string),
        call_ensures(InstanceRef::is_number, (view,), number),
        call_ensures(InstanceRef::is_array, (view,), array),
        call_ensures(InstanceRef::is_object, (view,), object),
    ensures
        boolean == sight.boolean is Some,
        string == sight.text is Some,
        number == sight.number is Some,
        array == sight.array is Some,
        object == sight.object is Some,
{
}

/// A view gives back the owned value that it was made from, and only such a view does.
pub proof fn an_owned_value_is_given_back(
    value: &OwnedValue,
    parsed: &JiterValue,
    python: PythonValue<'_>,
    views: (InstanceRef<'_>, InstanceRef<'_>, InstanceRef<'_>),
    given: (Option<&OwnedValue>, Option<&OwnedValue>, Option<&OwnedValue>),
)
    requires
        call_ensures(InstanceRef::from_serde, (value,), views.0),
        call_ensures(InstanceRef::from_jiter, (parsed,), views.1),
        call_ensures(InstanceRef::from_python, (python,), views.2),
        call_ensures(InstanceRef::as_serde, (views.0,), given.0),
        call_ensures(InstanceRef::as_serde, (views.1,), given.1),
        call_ensures(InstanceRef::as_serde, (views.2,), given.2),
    ensures
        given.0 == Some(value),
        given.1 is None,
        given.2 is None,
{
}

/// The length of an array is the number of its items, each index below it has the item at that
/// place, no other index has one, and the items are iterated over in their order.
pub proof fn an_array_has_an_item_at_each_index(
    array: ArrayRef<'_>,
    n: usize,
    empty: bool,
    index: usize,
    item: Option<InstanceRef<'_>>,
    items: ArrayIter<'_>,
)
    requires
        call_ensures(ArrayRef::len, (array,), n),
        call_ensures(ArrayRef::is_empty, (array,), empty),
        call_ensures(ArrayRef::get, (array, index), item),
        call_ensures(ArrayRef::iter, (array,), items),
    ensures
        n == array@.len(),
        empty <==> n == 0,
        item is Some <==> index < n,
        item is Some ==> item == Some(items@[index as int]) && item == Some(array@[index as int]),
        items@.len() == n,
        items@ == array@,
{
}

/// The value under a key is that of the first member with that key, and there is none where no
/// member has it; a key is contained where there is a value under it.
pub proof fn an_object_has_the_value_of_the_first_member_with_a_key(
    object: ObjectRef<'_>,
    key: &str,
    value: Option<InstanceRef<'_>>,
    contained: bool,
    k: int,
)
    requires
        call_ensures(ObjectRef::get, (object, key), value),
        call_ensures(ObjectRef::contains_key, (object, key), contained),
    ensures
        0 <= k < object@.len() && object@[k].0 == key@ && (forall|j: int|
            0 <= j < k ==> (#[trigger] object@[j]).0 != key@) ==> value == Some(object@[k].1),
        value is Some <==> exists|i: int|
            0 <= i < object@.len() && (#[trigger] object@[i]).0 == key@,
        contained <==> value is Some,
{
    found_where_listed(object@, key@);
    if 0 <= k < object@.len() && object@[k].0 == key@ && (forall|j: int|
        0 <= j < k ==> (#[trigger] object@[j]).0 != key@) {
        lookup_first(object@, key@, k);
    }
}

/// The length of an object is the number of its members, and they, their keys and their values
/// are iterated over in one order.
pub proof fn the_members_of_an_object_are_iterated_over_in_one_order(
    object: ObjectRef<'_>,
    n: usize,
    empty: bool,
    members: ObjectIter<'_>,
    keys: ObjectKeys<'_>,
    values: ObjectValues<'_>,
)
    requires
        call_ensures(ObjectRef::len, (object,), n),
        call_ensures(ObjectRef::is_empty, (object,), empty),
        call_ensures(ObjectRef::iter, (object,), members),
        call_ensures(ObjectRef::keys, (object,), keys),
        call_ensures(ObjectRef::values, (object,), values),
    ensures
        n == object@.len(),
        empty <==> n == 0,
        members@ == object@,
        keys.0@ == object@,
        values.0@ == object@,
{
}

/// The member of an owned value with a key is that of the first entry with that key, and there is
/// none where no entry has it, or where the value is no object.
pub proof fn a_member_is_found_under_its_key(
    value: &OwnedValue,
    map: ObjectMap,
    key: &str,
    found: Option<&OwnedValue>,
    k: int,
)
    requires
        call_ensures(OwnedValue::get, (value, key), found),
    ensures
        !(*value is Object) ==> found is None,
        *value == OwnedValue::Object(map) && found is None ==> forall|i: int|
            0 <= i < map.entries@.len() ==> (#[trigger] map.entries@[i]).0@ != key@,
        *value == OwnedValue::Object(map) && 0 <= k < map.entries@.len() && map.entries@[k].0@
            == key@ && (forall|j: int|
            0 <= j < k ==> (#[trigger] map.entries@[j]).0@ != key@) ==> found is Some && found->0@
            == map.entries@[k].1@,
{
    if *value == OwnedValue::Object(map) {
        crate::value::object_view(map);
        let members = map@;
        found_where_listed(members, key@);
        assert forall|i: int| 0 <= i < map.entries@.len() implies (#[trigger] map.entries@[i]).0@
            == members[i].0 && map.entries@[i].1@ == members[i].1 by {}
        if 0 <= k < map.entries@.len() && map.entries@[k].0@ == key@ && (forall|j: int|
            0 <= j < k ==> (#[trigger] map.entries@[j]).0@ != key@) {
            assert forall|j: int| 0 <= j < k implies (#[trigger] members[j]).0 != key@ by {
                assert(map.entries@[j].0@ != key@);
            }
            lookup_first(members, key@, k);
        }
    }
}

} // verus!
