use json_instance::float64::Float64;
use json_instance::instance::InstanceRef;
use json_instance::integer::BigInteger;
use json_instance::number::NumberRef;
use json_instance::array::ArrayRef;
use json_instance::object::ObjectRef;
use json_instance::python::{python_value_is_json, PythonHeap, PythonObject, PythonValue};
use json_instance::value::{OwnedNumber, OwnedValue};
use std::collections::HashSet;

fn serde(text: &str) -> OwnedValue {
    let value: serde_json::Value = serde_json::from_str(text).unwrap();
    OwnedValue::from_serde(&value)
}

fn float(value: f64) -> Float64 {
    Float64 { bits: value.to_bits() }
}

fn integer(text: &str) -> PythonObject {
    PythonObject::Int(BigInteger::parse(text).unwrap())
}

fn text(text: &str) -> PythonObject {
    PythonObject::Str(Some(text.to_string()))
}

fn heap(objects: Vec<PythonObject>) -> PythonHeap {
    PythonHeap { objects }
}

fn view(heap: &PythonHeap, id: usize) -> InstanceRef<'_> {
    InstanceRef::from_python(PythonValue { heap, id })
}

#[test]
fn python_scalars_have_their_kinds() {
    let heap = heap(vec![
        PythonObject::NoneObject,
        PythonObject::Bool(true),
        integer("-7"),
        PythonObject::Float(float(1.5)),
        text("x"),
        PythonObject::Float(float(f64::NAN)),
        PythonObject::Str(None),
        PythonObject::Other,
    ]);
    assert!(view(&heap, 0).is_null());
    assert_eq!(view(&heap, 1).as_bool(), Some(true));
    assert!(!view(&heap, 1).is_number());
    assert_eq!(view(&heap, 2).as_i64(), Some(-7));
    assert_eq!(view(&heap, 2).as_u64(), None);
    assert!(matches!(view(&heap, 2).as_number(), Some(NumberRef::PythonInteger(_))));
    assert_eq!(view(&heap, 3).as_f64(), Some(float(1.5)));
    assert_eq!(view(&heap, 4).as_str(), Some("x"));
    assert!(!view(&heap, 5).is_number());
    assert!(!view(&heap, 6).is_string());
    for id in 0..5 {
        assert!(view(&heap, id).is_json(), "{id}");
    }
    for id in 5..8 {
        assert!(!view(&heap, id).is_json(), "{id}");
    }
    assert!(view(&heap, 0).as_serde().is_none());
    assert_eq!(PythonValue { heap: &heap, id: 3 }.identity(), 3);
}

#[test]
fn python_integers_convert_like_other_integers() {
    let huge = format!("1{}", "0".repeat(309));
    let heap = heap(vec![
        integer("9223372036854775807"),
        integer("9223372036854775808"),
        integer("18446744073709551616"),
        integer(&huge),
    ]);
    assert_eq!(view(&heap, 0).as_i64(), Some(i64::MAX));
    assert_eq!(view(&heap, 0).as_u64(), Some(i64::MAX as u64));
    assert_eq!(view(&heap, 1).as_i64(), None);
    assert_eq!(view(&heap, 1).as_u64(), Some(9223372036854775808));
    assert_eq!(view(&heap, 2).as_u64(), None);
    assert_eq!(view(&heap, 2).as_f64(), Some(float(18446744073709551616.0)));
    assert_eq!(view(&heap, 3).as_f64(), None);
    assert!(view(&heap, 0).equals(&serde("9223372036854775807")));
    assert!(view(&heap, 1).equals(&serde("9223372036854775808")));
    assert!(!view(&heap, 1).equals(&serde("-9223372036854775808")));
    assert!(view(&heap, 1).equals(&serde("9223372036854775808.0")));
    assert!(view(&heap, 2).equals(&serde("18446744073709551616.0")));
    assert!(!view(&heap, 2).equals(&serde("18446744073709551615")));
    assert!(view(&heap, 2).as_number().unwrap().is_integer());
}

#[test]
fn python_lists_and_tuples_are_arrays() {
    let heap = heap(vec![
        integer("1"),
        integer("2"),
        PythonObject::List(vec![0, 1, 0]),
        PythonObject::Tuple(vec![1]),
        PythonObject::List(vec![]),
    ]);
    let list = view(&heap, 2).as_array().unwrap();
    assert!(matches!(list, ArrayRef::PythonList(_)));
    assert_eq!(list.len(), 3);
    assert_eq!(list.get(1).unwrap().as_i64(), Some(2));
    assert!(list.get(3).is_none());
    let mut items = list.iter();
    assert_eq!(items.size_hint(), (3, Some(3)));
    assert_eq!(items.next().unwrap().as_i64(), Some(1));
    assert_eq!(items.next().unwrap().as_i64(), Some(2));
    assert_eq!(items.size_hint(), (1, Some(1)));
    assert_eq!(items.next().unwrap().as_i64(), Some(1));
    assert!(items.next().is_none());
    assert!(items.next().is_none());
    let tuple = view(&heap, 3).as_array().unwrap();
    assert!(matches!(tuple, ArrayRef::PythonTuple(_)));
    assert_eq!(tuple.get(0).unwrap().as_i64(), Some(2));
    let mut items = tuple.iter();
    assert_eq!(items.next().unwrap().as_i64(), Some(2));
    assert!(items.next().is_none());
    assert!(view(&heap, 4).as_array().unwrap().is_empty());
    assert!(view(&heap, 2).equals(&serde("[1, 2, 1]")));
    assert!(view(&heap, 3).equals(&serde("[2]")));
    assert!(view(&heap, 0).as_array().is_none());
}

#[test]
fn python_dicts_are_objects() {
    let heap = heap(vec![
        text("b"),
        text("a"),
        integer("1"),
        integer("2"),
        PythonObject::Dict(vec![(0, 2), (1, 3), (2, 3)]),
    ]);
    let object = view(&heap, 4).as_object().unwrap();
    assert_eq!(object.len(), 3);
    assert_eq!(object.get("b").unwrap().as_i64(), Some(1));
    assert_eq!(object.get("a").unwrap().as_i64(), Some(2));
    assert_eq!(object.get("").unwrap().as_i64(), Some(2));
    assert!(object.get("c").is_none());
    let mut entries = object.iter();
    assert_eq!(entries.next().unwrap().0, "b");
    assert_eq!(entries.size_hint(), (2, Some(2)));
    assert_eq!(entries.next().unwrap().0, "a");
    assert_eq!(entries.next().unwrap().0, "");
    assert!(entries.next().is_none());
    assert!(entries.next().is_none());
    assert_eq!(entries.size_hint(), (0, Some(0)));
    assert!(!view(&heap, 4).is_json());
}

#[test]
fn python_containers_are_json_where_their_parts_are() {
    let heap = heap(vec![
        text("k"),
        integer("1"),
        PythonObject::List(vec![1, 1]),
        PythonObject::Dict(vec![(0, 2)]),
        PythonObject::Tuple(vec![3, 3, 2]),
        PythonObject::Other,
        PythonObject::List(vec![1, 5]),
        PythonObject::Dict(vec![(0, 5)]),
        PythonObject::Dict(vec![(1, 1)]),
        PythonObject::Float(float(f64::INFINITY)),
        PythonObject::Tuple(vec![9]),
    ]);
    for id in 0..5 {
        assert!(view(&heap, id).is_json(), "{id}");
    }
    for id in 5..11 {
        assert!(!view(&heap, id).is_json(), "{id}");
    }
    assert!(view(&heap, 4).equals(&serde(r#"[{"k": [1, 1]}, {"k": [1, 1]}, [1, 1]]"#)));
}

#[test]
fn python_containers_that_hold_themselves_are_not_json() {
    let heap = heap(vec![
        PythonObject::List(vec![0]),
        text("k"),
        PythonObject::Dict(vec![(1, 3)]),
        PythonObject::Tuple(vec![2]),
        PythonObject::List(vec![3]),
    ]);
    for id in [0, 2, 3, 4] {
        assert!(!view(&heap, id).is_json(), "{id}");
    }
    assert!(!view(&heap, 0).equals(&serde("[[[]]]")));
}

#[test]
fn active_containers_are_refused_and_scalars_are_not() {
    let heap = heap(vec![
        integer("1"),
        PythonObject::List(vec![0]),
        text("k"),
        PythonObject::Dict(vec![(2, 1)]),
        PythonObject::Tuple(vec![]),
        PythonObject::Other,
    ]);
    for (id, active, expected) in [
        (0, vec![0], true),
        (2, vec![0, 2], true),
        (1, vec![], true),
        (1, vec![0], true),
        (1, vec![1], false),
        (3, vec![1], false),
        (3, vec![4], true),
        (4, vec![4], false),
        (5, vec![], false),
        (5, vec![3], false),
    ] {
        let mut set: HashSet<usize> = active.iter().copied().collect();
        let before = set.clone();
        let value = PythonValue { heap: &heap, id };
        assert_eq!(python_value_is_json(value, &mut set), expected, "{id} {active:?}");
        assert_eq!(set, before, "{id} {active:?}");
    }
}

#[test]
fn python_values_become_owned_values() {
    let heap = heap(vec![
        text("z"),
        text("a"),
        integer("18446744073709551615"),
        integer("-5"),
        PythonObject::Float(float(2.5)),
        PythonObject::Tuple(vec![2, 3, 4]),
        PythonObject::NoneObject,
        PythonObject::Bool(false),
        PythonObject::List(vec![6, 7, 0]),
        PythonObject::Dict(vec![(0, 5), (1, 8)]),
    ]);
    let root = view(&heap, 9);
    let owned = root.try_to_owned().unwrap();
    let expected = serde(r#"{"a": [null, false, "z"], "z": [18446744073709551615, -5, 2.5]}"#);
    assert!(InstanceRef::from_serde(&owned).equals(&expected));
    assert!(root.equals(&owned));
    assert_eq!(owned.as_object().unwrap().entries[0].0, "a");
}

#[test]
fn what_is_not_json_in_python_becomes_null() {
    let heap = heap(vec![
        PythonObject::Other,
        PythonObject::Float(float(f64::NAN)),
        PythonObject::Str(None),
        PythonObject::List(vec![0, 1, 2]),
        PythonObject::Dict(vec![(0, 3)]),
    ]);
    let owned = view(&heap, 4).to_owned();
    assert!(InstanceRef::from_serde(&owned).equals(&serde(r#"{"": [null, null, null]}"#)));
}

#[test]
fn python_integers_too_large_to_read_have_no_owned_value() {
    let huge = format!("1{}", "0".repeat(400));
    let heap = heap(vec![
        integer(&huge),
        PythonObject::List(vec![0]),
        integer("18446744073709551616"),
    ]);
    assert!(view(&heap, 1).try_to_owned().is_none());
    assert!(matches!(
        view(&heap, 2).try_to_owned(),
        Some(OwnedValue::Number(OwnedNumber::Float(f))) if f == float(18446744073709551616.0)
    ));
}

#[test]
fn python_graphs_made_by_hand_can_be_ill_formed() {
    let graph = heap(vec![
        PythonObject::List(vec![2]),
        PythonObject::Tuple(vec![]),
        PythonObject::Dict(vec![(3, 2)]),
        text("a"),
    ]);
    let value = |id: usize| PythonValue { heap: &graph, id };
    assert!(ArrayRef::PythonList(value(0)).is_wf());
    assert!(!ArrayRef::PythonList(value(1)).is_wf());
    assert!(ArrayRef::PythonTuple(value(1)).is_wf());
    assert!(!ArrayRef::PythonTuple(value(0)).is_wf());
    assert!(ObjectRef::Python(value(2)).is_wf());
    assert!(!ObjectRef::Python(value(3)).is_wf());
    assert!(!ObjectRef::Python(value(4)).is_wf());
    for object in [
        PythonObject::List(vec![0, 1]),
        PythonObject::Tuple(vec![1]),
        PythonObject::Dict(vec![(0, 1)]),
        PythonObject::Dict(vec![(1, 0)]),
    ] {
        let graph = heap(vec![object]);
        assert!(!graph.is_wf());
        assert!(!PythonValue { heap: &graph, id: 0 }.is_wf());
    }
}

#[test]
fn shared_parts_are_json_and_a_cycle_below_is_not() {
    // One list is a part of two others: nothing holds itself.
    let shared = heap(vec![
        PythonObject::List(vec![1, 2]),
        PythonObject::List(vec![3]),
        PythonObject::Tuple(vec![3, 3]),
        PythonObject::List(vec![4]),
        PythonObject::NoneObject,
    ]);
    assert!(view(&shared, 0).is_json());
    // What is reached holds itself, what reaches it does not.
    let cycle = heap(vec![
        PythonObject::List(vec![1]),
        PythonObject::Tuple(vec![2]),
        PythonObject::List(vec![1]),
    ]);
    assert!(!view(&cycle, 0).is_json());
    // A key that is no string, below.
    let keyed = heap(vec![
        PythonObject::List(vec![1]),
        PythonObject::Dict(vec![(2, 2)]),
        integer("1"),
    ]);
    assert!(!view(&keyed, 0).is_json());
}
