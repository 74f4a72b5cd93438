//! Laws of Python objects as values of JSON: which objects are, and what tree they stand for.

use crate::instance::{InstanceRef, InstanceRepr};
use crate::python::{
    dict_entries, dict_tree, holds, is_child, is_finite, is_json, json_children, json_within,
    self_holding_is_not_json, sequence_items, sequence_tree, PythonHeap, PythonObject, PythonValue,
};
use crate::value::{Json, Num};
use vstd::prelude::*;

verus! {

/// A bound on the depth may be raised.
proof fn lemma_within_monotone(heap: PythonHeap, id: usize, low: nat, high: nat)
    requires
        json_within(heap, id, low),
        low <= high,
    ensures
        json_within(heap, id, high),
    decreases low,
{
    let object = heap.objects@[id as int];
    if let Some(items) = sequence_items(object) {
        assert forall|i: int| 0 <= i < items.len() implies json_within(
            heap,
            #[trigger] items[i],
            (high - 1) as nat,
        ) by {
            lemma_within_monotone(heap, items[i], (low - 1) as nat, (high - 1) as nat);
        }
    } else if let Some(entries) = dict_entries(object) {
        assert forall|i: int| 0 <= i < entries.len() implies heap.objects@[(
        #[trigger] entries[i]).0 as int] is Str && json_within(
            heap,
            entries[i].1,
            (high - 1) as nat,
        ) by {
            lemma_within_monotone(heap, entries[i].1, (low - 1) as nat, (high - 1) as nat);
        }
    }
}

/// Values of JSON have a common bound on their depths.
proof fn lemma_common_height(heap: PythonHeap, ids: Seq<usize>) -> (height: nat)
    requires
        forall|i: int| 0 <= i < ids.len() ==> is_json(heap, #[trigger] ids[i]),
    ensures
        forall|i: int| 0 <= i < ids.len() ==> json_within(heap, #[trigger] ids[i], height),
    decreases ids.len(),
{
    if ids.len() == 0 {
        0
    } else {
        let rest = ids.drop_last();
        assert forall|i: int| 0 <= i < rest.len() implies is_json(heap, #[trigger] rest[i]) by {
            assert(rest[i] == ids[i]);
        }
        let low = lemma_common_height(heap, rest);
        let last = ids[ids.len() - 1];
        assert(is_json(heap, last));
        let other = choose|height: nat| json_within(heap, last, height);
        let height = if low < other {
            other
        } else {
            low
        };
        assert forall|i: int| 0 <= i < ids.len() implies json_within(
            heap,
            #[trigger] ids[i],
            height,
        ) by {
            if i < rest.len() {
                assert(rest[i] == ids[i]);
                lemma_within_monotone(heap, rest[i], low, height);
            } else {
                lemma_within_monotone(heap, last, other, height);
            }
        }
        height
    }
}

/// Owned values and values that `jiter` parsed are values of JSON. Of the Python objects that are
/// no containers, `None`, booleans, integers, finite floats and strings with a text are.
pub proof fn scalars_of_json(view: InstanceRef<'_>, json: bool)
    requires
        call_ensures(InstanceRef::is_json, (view,), json),
    ensures
        view.repr is Serde || view.repr is Jiter ==> json,
        view.repr matches InstanceRepr::Python(value) ==> match value.heap.objects@[value.id as int] {
            PythonObject::NoneObject => json,
            PythonObject::Bool(_) => json,
            PythonObject::Int(_) => json,
            PythonObject::Float(f) => json == f.spec_is_finite(),
            PythonObject::Str(text) => json == text is Some,
            PythonObject::Other => !json,
            _ => true,
        },
{
    if let InstanceRepr::Python(value) = view.repr {
        let heap = *value.heap;
        assert(json_within(heap, value.id, 0) ==> is_json(heap, value.id));
    }
}

/// A `list` or a `tuple` is a value of JSON exactly where all of its items are.
pub proof fn a_sequence_is_json_where_its_items_are(
    value: PythonValue<'_>,
    items: Vec<usize>,
    json: bool,
)
    requires
        value.heap.objects@[value.id as int] == PythonObject::List(items)
            || value.heap.objects@[value.id as int] == PythonObject::Tuple(items),
        call_ensures(
            InstanceRef::is_json,
            (InstanceRef { repr: InstanceRepr::Python(value) },),
            json,
        ),
    ensures
        json ==> forall|i: int, item: bool|
            0 <= i < items@.len() && #[trigger] call_ensures(
                InstanceRef::is_json,
                (
                    InstanceRef {
                        repr: InstanceRepr::Python(
                            PythonValue { heap: value.heap, id: items@[i] },
                        ),
                    },
                ),
                item,
            ) ==> item,
        (forall|i: int| 0 <= i < items@.len() ==> is_json(*value.heap, #[trigger] items@[i]))
            ==> json,
{
    let heap = *value.heap;
    if json {
        json_children(heap, value.id);
        assert forall|i: int| 0 <= i < items@.len() implies is_json(heap, #[trigger] items@[i]) by {
            assert(sequence_items(heap.objects@[value.id as int])->0[i] == items@[i]);
        }
    }
    if forall|i: int| 0 <= i < items@.len() ==> is_json(heap, #[trigger] items@[i]) {
        let height = lemma_common_height(heap, items@);
        assert(json_within(heap, value.id, height + 1));
    }
}

/// A `dict` is a value of JSON exactly where all of its keys are strings and all of its values
/// are values of JSON.
pub proof fn a_dict_is_json_where_its_entries_are(
    value: PythonValue<'_>,
    entries: Vec<(usize, usize)>,
    json: bool,
)
    requires
        value.heap.objects@[value.id as int] == PythonObject::Dict(entries),
        call_ensures(
            InstanceRef::is_json,
            (InstanceRef { repr: InstanceRepr::Python(value) },),
            json,
        ),
    ensures
        json <==> forall|i: int|
            0 <= i < entries@.len() ==> value.heap.objects@[(
            #[trigger] entries@[i]).0 as int] is Str && is_json(*value.heap, entries@[i].1),
{
    let heap = *value.heap;
    if json {
        json_children(heap, value.id);
        let height = choose|height: nat| json_within(heap, value.id, height);
        assert forall|i: int| 0 <= i < entries@.len() implies heap.objects@[(
        #[trigger] entries@[i]).0 as int] is Str && is_json(heap, entries@[i].1) by {
            assert(dict_entries(heap.objects@[value.id as int])->0[i] == entries@[i]);
        }
    }
    if forall|i: int|
        0 <= i < entries@.len() ==> heap.objects@[(#[trigger] entries@[i]).0 as int] is Str
            && is_json(heap, entries@[i].1) {
        let values = Seq::new(entries@.len(), |i: int| entries@[i].1);
        assert forall|i: int| 0 <= i < values.len() implies is_json(heap, #[trigger] values[i]) by {
            assert(values[i] == entries@[i].1);
        }
        let height = lemma_common_height(heap, values);
        assert forall|i: int| 0 <= i < entries@.len() implies heap.objects@[(
        #[trigger] entries@[i]).0 as int] is Str && json_within(heap, entries@[i].1, height) by {
            assert(values[i] == entries@[i].1);
        }
        assert(json_within(heap, value.id, height + 1));
    }
}

/// A container that holds itself, directly or through other containers, is not a value of JSON:
/// there is no way from an object of JSON along items and values back to it.
pub proof fn no_way_leads_back(value: PythonValue<'_>, way: Seq<usize>, json: bool)
    requires
        way.len() >= 2,
        way[0] == value.id,
        way[way.len() - 1] == value.id,
        forall|k: int|
            0 <= k < way.len() - 1 ==> match value.heap.objects@[(#[trigger] way[k]) as int] {
                PythonObject::List(items) => items@.contains(way[k + 1]),
                PythonObject::Tuple(items) => items@.contains(way[k + 1]),
                PythonObject::Dict(entries) => exists|i: int|
                    0 <= i < entries@.len() && (#[trigger] entries@[i]).1 == way[k + 1],
                _ => false,
            },
        call_ensures(
            InstanceRef::is_json,
            (InstanceRef { repr: InstanceRepr::Python(value) },),
            json,
        ),
    ensures
        !json,
{
    lemma_way_holds(*value.heap, way);
    self_holding_is_not_json(*value.heap, value.id, (way.len() - 2) as nat);
}

proof fn lemma_way_holds(heap: PythonHeap, way: Seq<usize>)
    requires
        way.len() >= 2,
        forall|k: int|
            0 <= k < way.len() - 1 ==> match heap.objects@[(#[trigger] way[k]) as int] {
                PythonObject::List(items) => items@.contains(way[k + 1]),
                PythonObject::Tuple(items) => items@.contains(way[k + 1]),
                PythonObject::Dict(entries) => exists|i: int|
                    0 <= i < entries@.len() && (#[trigger] entries@[i]).1 == way[k + 1],
                _ => false,
            },
    ensures
        holds(heap, way[0], way[way.len() - 1], (way.len() - 2) as nat),
    decreases way.len(),
{
    let n = way.len() - 2;
    let (mid, to) = (way[n], way[n + 1]);
    assert(is_child(heap, mid, to)) by {
        if let PythonObject::Dict(entries) = heap.objects@[mid as int] {
            let i = choose|i: int| 0 <= i < entries@.len() && (#[trigger] entries@[i]).1 == to;
            assert(dict_entries(heap.objects@[mid as int])->0[i].1 == to);
        }
    }
    if n > 0 {
        let rest = way.drop_last();
        assert forall|k: int| 0 <= k < rest.len() - 1 implies (match heap.objects@[(
        #[trigger] rest[k]) as int] {
            PythonObject::List(items) => items@.contains(rest[k + 1]),
            PythonObject::Tuple(items) => items@.contains(rest[k + 1]),
            PythonObject::Dict(entries) => exists|i: int|
                0 <= i < entries@.len() && (#[trigger] entries@[i]).1 == rest[k + 1],
            _ => false,
        }) by {
            assert(rest[k] == way[k] && rest[k + 1] == way[k + 1]);
        }
        lemma_way_holds(heap, rest);
        assert(rest[rest.len() - 1] == mid);
        assert(holds(heap, way[0], mid, (n - 1) as nat));
    }
}

/// The tree of a Python object that is no container is what the object is, and null where JSON
/// does not have it.
pub proof fn the_tree_of_a_scalar_is_what_it_is(value: PythonValue<'_>)
    ensures
        ({
            let tree = InstanceRef { repr: InstanceRepr::Python(value) }.tree();
            match value.heap.objects@[value.id as int] {
                PythonObject::NoneObject => tree == Json::Null,
                PythonObject::Bool(b) => tree == Json::Bool(b),
                PythonObject::Int(n) => tree == Json::Number(Num::Int(n@)),
                PythonObject::Float(f) => tree == if f.spec_is_finite() {
                    Json::Number(Num::Float(f))
                } else {
                    Json::Null
                },
                PythonObject::Str(Some(s)) => tree == Json::Str(s@),
                PythonObject::Str(None) => tree == Json::Null,
                PythonObject::Other => tree == Json::Null,
                _ => true,
            }
        }),
{
}

/// The tree of a `list` or a `tuple` has the trees of its items, in their order.
pub proof fn the_tree_of_a_sequence_has_the_trees_of_its_items(
    value: PythonValue<'_>,
    items: Vec<usize>,
    i: int,
)
    requires
        is_finite(*value.heap, value.id),
        value.heap.objects@[value.id as int] == PythonObject::List(items)
            || value.heap.objects@[value.id as int] == PythonObject::Tuple(items),
        0 <= i < items@.len(),
    ensures
        ({
            let tree = InstanceRef { repr: InstanceRepr::Python(value) }.tree();
            let item = InstanceRef {
                repr: InstanceRepr::Python(PythonValue { heap: value.heap, id: items@[i] }),
            };
            &&& tree is Array
            &&& tree->Array_0.len() == items@.len()
            &&& tree->Array_0[i] == item.tree()
        }),
{
    sequence_tree(*value.heap, value.id);
}

/// The tree of a `dict` has the texts of its keys and the trees of its values, in their order.
pub proof fn the_tree_of_a_dict_has_the_trees_of_its_values(
    value: PythonValue<'_>,
    entries: Vec<(usize, usize)>,
    i: int,
)
    requires
        is_finite(*value.heap, value.id),
        value.heap.objects@[value.id as int] == PythonObject::Dict(entries),
        0 <= i < entries@.len(),
    ensures
        ({
            let tree = InstanceRef { repr: InstanceRepr::Python(value) }.tree();
            let item = InstanceRef {
                repr: InstanceRepr::Python(PythonValue { heap: value.heap, id: entries@[i].1 }),
            };
            &&& tree is Object
            &&& tree->Object_0.len() == entries@.len()
            &&& tree->Object_0[i].0 == match value.heap.objects@[entries@[i].0 as int] {
                PythonObject::Str(Some(key)) => key@,
                _ => Seq::empty(),
            }
            &&& tree->Object_0[i].1 == item.tree()
        }),
{
    dict_tree(*value.heap, value.id);
}

} // verus!
