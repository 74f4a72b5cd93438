use json_instance::float64::Float64;
use json_instance::instance::InstanceRef;
use json_instance::integer::BigInteger;
use json_instance::python::{PythonHeap, PythonObject, PythonValue};
use json_instance::python_snapshot::PythonReply;
use json_instance::value::OwnedValue;
use pyo3::types::PyAnyMethods;

fn serde(text: &str) -> OwnedValue {
    let value: serde_json::Value = serde_json::from_str(text).unwrap();
    OwnedValue::from_serde(&value)
}

/// The graph of the value of a Python expression, and the value in it.
fn capture(expression: &str) -> (PythonHeap, usize) {
    pyo3::Python::initialize();
    pyo3::Python::attach(|py| {
        let builtins = py.import("builtins").unwrap();
        let globals = py.import("__main__").unwrap().getattr("__dict__").unwrap();
        PythonHeap::capture(builtins.call_method1("eval", (expression, globals)).unwrap())
    })
}

/// Looks at the value of a Python expression.
fn look<T>(expression: &str, at: impl FnOnce(InstanceRef<'_>) -> T) -> T {
    let (heap, id) = capture(expression);
    at(InstanceRef::from_python(PythonValue { heap: &heap, id }))
}

fn reply(address: usize) -> PythonReply {
    PythonReply {
        address,
        none: false,
        boolean: None,
        text: None,
        integer: None,
        float: None,
        list: None,
        tuple: None,
        dict: None,
    }
}

#[test]
fn python_objects_equal_their_json() {
    for (expression, text) in [
        ("None", "null"),
        ("True", "true"),
        ("False", "false"),
        ("0", "0"),
        ("-17", "-17"),
        ("2**64 - 1", "18446744073709551615"),
        ("-2**63", "-9223372036854775808"),
        ("2**70", "1180591620717411303424.0"),
        ("1.5", "1.5"),
        ("3.0", "3"),
        ("'text'", "\"text\""),
        ("''", "\"\""),
        ("'\\u00e9\\U0001F600'", "\"\u{e9}\u{1F600}\""),
        ("[1, 'a', None, [True]]", "[1, \"a\", null, [true]]"),
        ("(1, (2,), ())", "[1, [2], []]"),
        ("{'b': 1, 'a': {'c': [2.0]}}", r#"{"a": {"c": [2]}, "b": 1}"#),
        ("{}", "{}"),
        ("[[1]] * 3", "[[1], [1], [1]]"),
    ] {
        look(expression, |view| {
            assert!(view.is_json(), "{expression}");
            assert!(view.equals(&serde(text)), "{expression}");
            let owned = view.try_to_owned().unwrap();
            assert!(InstanceRef::from_serde(&owned).equals(&serde(text)), "{expression}");
        });
    }
}

#[test]
fn python_booleans_are_not_numbers() {
    look("True", |view| {
        assert_eq!(view.as_bool(), Some(true));
        assert!(!view.is_number());
        assert!(!view.equals(&serde("1")));
    });
    look("1", |view| {
        assert_eq!(view.as_bool(), None);
        assert_eq!(view.as_i64(), Some(1));
    });
}

#[test]
fn python_objects_that_are_not_json() {
    for expression in [
        "{1}",
        "b'x'",
        "float('nan')",
        "float('inf')",
        "[1, {2}]",
        "{1: 2}",
        "{'a': object()}",
        "'\\ud800'",
        "(lambda a: (a.append(a), a)[1])([])",
        "(lambda d: (d.update(k=[d]), d)[1])({})",
    ] {
        look(expression, |view| assert!(!view.is_json(), "{expression}"));
    }
    look("{'\\ud800': 1}", |view| {
        assert!(view.is_json());
        assert_eq!(view.as_object().unwrap().get("").unwrap().as_i64(), Some(1));
    });
    look("[{1}, float('nan')]", |view| {
        let owned = view.to_owned();
        assert!(InstanceRef::from_serde(&owned).equals(&serde("[null, null]")));
    });
}

#[test]
fn large_python_integers_keep_their_value() {
    look("10**400", |view| {
        let number = view.as_number().unwrap();
        assert!(number.is_integer());
        assert_eq!(number.as_i64(), None);
        assert_eq!(number.as_u64(), None);
        assert_eq!(number.as_f64(), None);
        assert!(view.is_json());
        assert!(view.try_to_owned().is_none());
    });
    look("-(2**100)", |view| {
        let expected = (-1267650600228229401496703205376f64).to_bits();
        assert_eq!(view.as_f64(), Some(Float64 { bits: expected }));
    });
    look("10**5000", |view| {
        assert!(view.is_json());
        assert!(!view.equals(&serde("1")));
    });
}

#[test]
fn python_dicts_keep_their_order() {
    look("{'z': 1, 'a': 2, 'm': 3}", |view| {
        let object = view.as_object().unwrap();
        let mut keys = object.keys();
        assert_eq!(keys.size_hint(), (3, Some(3)));
        assert_eq!(keys.next(), Some("z"));
        assert_eq!(keys.next(), Some("a"));
        assert_eq!(keys.next(), Some("m"));
        assert_eq!(keys.next(), None);
        assert_eq!(object.get("m").unwrap().as_i64(), Some(3));
    });
}

#[test]
fn shared_parts_are_one_object() {
    let (heap, id) = capture("[[]] * 3");
    assert_eq!(id, 0);
    assert_eq!(heap.objects.len(), 2);
    assert!(matches!(&heap.objects[0], PythonObject::List(items) if items == &[1, 1, 1]));
}

#[test]
fn descriptions_make_a_graph() {
    let replies = vec![
        PythonReply { list: Some(vec![30, 20, 30]), ..reply(10) },
        PythonReply { boolean: Some(true), integer: BigInteger::parse("1"), ..reply(20) },
        PythonReply { dict: Some(vec![(40, 10)]), ..reply(30) },
        PythonReply { text: Some(Some("k".to_string())), ..reply(40) },
        PythonReply { tuple: Some(vec![]), ..reply(50) },
        PythonReply { none: true, ..reply(60) },
        PythonReply { text: Some(None), ..reply(70) },
        reply(80),
        PythonReply { float: Some(Float64 { bits: 1.5f64.to_bits() }), ..reply(90) },
    ];
    let (heap, id) = PythonHeap::from_snapshot(&replies, 30).unwrap();
    assert_eq!(id, 2);
    assert!(matches!(&heap.objects[0], PythonObject::List(items) if items == &[2, 1, 2]));
    assert!(matches!(heap.objects[1], PythonObject::Bool(true)));
    assert!(matches!(&heap.objects[2], PythonObject::Dict(entries) if entries == &[(3, 0)]));
    assert!(matches!(&heap.objects[3], PythonObject::Str(Some(text)) if text == "k"));
    assert!(matches!(&heap.objects[4], PythonObject::Tuple(items) if items.is_empty()));
    assert!(matches!(heap.objects[5], PythonObject::NoneObject));
    assert!(matches!(heap.objects[6], PythonObject::Str(None)));
    assert!(matches!(heap.objects[7], PythonObject::Other));
    assert!(matches!(heap.objects[8], PythonObject::Float(_)));
    assert!(PythonHeap::from_snapshot(&replies, 11).is_none());
    let missing = vec![PythonReply { list: Some(vec![11]), ..reply(10) }];
    assert!(PythonHeap::from_snapshot(&missing, 10).is_none());
    let missing = vec![PythonReply { dict: Some(vec![(10, 11)]), ..reply(10) }];
    assert!(PythonHeap::from_snapshot(&missing, 10).is_none());
}
