use json_instance::array::ArrayRef;
use json_instance::float64::Float64;
use json_instance::instance::InstanceRef;
use json_instance::jiter_values::JiterValue;
use json_instance::number::NumberRef;
use json_instance::object::ObjectRef;
use json_instance::value::{ObjectMap, OwnedNumber, OwnedValue};

fn serde(text: &str) -> OwnedValue {
    let value: serde_json::Value = serde_json::from_str(text).unwrap();
    OwnedValue::from_serde(&value)
}

fn jiter(text: &str) -> JiterValue {
    let value = jiter::JsonValue::parse(text.as_bytes(), true).unwrap();
    JiterValue::from_jiter(&value)
}

fn float(value: f64) -> Float64 {
    Float64 { bits: value.to_bits() }
}

#[test]
fn serde_view_preserves_json_semantic_equality() {
    let value = serde(r#"{"name": "Ada", "values": [1, 2.0, true, null]}"#);
    assert!(InstanceRef::from_serde(&value).equals(&value));
}

#[test]
fn jiter_view_preserves_json_semantic_equality() {
    let parsed =
        jiter::JsonValue::parse(br#"{"name":"Ada","values":[1,2.0,true,null]}"#, false).unwrap();
    let parsed = JiterValue::from_jiter(&parsed);
    let expected = serde(r#"{"name": "Ada", "values": [1, 2, true, null]}"#);
    assert!(InstanceRef::from_jiter(&parsed).equals(&expected));
}

#[test]
fn serde_value_is_read_level_by_level() {
    let value = serde(r#"{"b": [1, -2, 2.5, "x"], "a": {"n": null, "t": true}}"#);
    let object = value.as_object().unwrap();
    assert_eq!(object.len(), 2);
    assert_eq!(object.entries[0].0, "a");
    assert_eq!(object.entries[1].0, "b");
    let items = object.get("b").unwrap().as_array().unwrap();
    assert!(matches!(items[0], OwnedValue::Number(OwnedNumber::PosInt(1))));
    assert!(matches!(items[1], OwnedValue::Number(OwnedNumber::NegInt(-2))));
    assert!(matches!(items[2], OwnedValue::Number(OwnedNumber::Float(f)) if f == float(2.5)));
    assert_eq!(items[3].as_str(), Some("x"));
    assert!(matches!(value.get("a").unwrap().get("n"), Some(OwnedValue::Null)));
    assert!(matches!(value.get("a").unwrap().get("t"), Some(OwnedValue::Bool(true))));
    assert!(value.get("c").is_none());
    assert!(items[0].get("b").is_none());
    assert!(items[0].as_array().is_none());
    assert!(items[0].as_object().is_none());
}

#[test]
fn jiter_value_is_read_level_by_level() {
    let value = jiter(r#"{"k": [1, 9223372036854775808, 0.5, "x", false, null], "k": {}}"#);
    let view = InstanceRef::from_jiter(&value);
    let object = view.as_object().unwrap();
    assert_eq!(object.len(), 2);
    let items = object.get("k").unwrap().as_array().unwrap();
    assert_eq!(items.len(), 6);
    assert_eq!(items.get(0).unwrap().as_i64(), Some(1));
    assert!(matches!(items.get(1).unwrap().as_number(), Some(NumberRef::BigInteger(_))));
    assert_eq!(items.get(1).unwrap().as_i64(), None);
    assert_eq!(items.get(1).unwrap().as_u64(), None);
    assert_eq!(items.get(1).unwrap().as_f64(), Some(float(9223372036854775808.0)));
    assert_eq!(items.get(2).unwrap().as_f64(), Some(float(0.5)));
    assert_eq!(items.get(3).unwrap().as_str(), Some("x"));
    assert_eq!(items.get(4).unwrap().as_bool(), Some(false));
    assert!(items.get(5).unwrap().is_null());
    assert!(items.get(6).is_none());
}

#[test]
fn kinds_exclude_one_another() {
    for (text, kind) in [
        ("null", 0),
        ("true", 1),
        ("1", 2),
        ("1.5", 2),
        ("\"\"", 3),
        ("[]", 4),
        ("{}", 5),
    ] {
        let owned = serde(text);
        let parsed = jiter(text);
        for view in [InstanceRef::from_serde(&owned), InstanceRef::from_jiter(&parsed)] {
            assert_eq!(view.is_null(), kind == 0, "{text}");
            assert_eq!(view.is_boolean(), kind == 1, "{text}");
            assert_eq!(view.is_number(), kind == 2, "{text}");
            assert_eq!(view.is_string(), kind == 3, "{text}");
            assert_eq!(view.is_array(), kind == 4, "{text}");
            assert_eq!(view.is_object(), kind == 5, "{text}");
            assert!(view.is_json());
        }
    }
}

#[test]
fn only_a_serde_view_gives_its_value_back() {
    let owned = serde("[1]");
    let parsed = jiter("[1]");
    assert!(InstanceRef::from_serde(&owned).as_serde().is_some());
    assert!(InstanceRef::from_jiter(&parsed).as_serde().is_none());
    assert!(InstanceRef::from(&owned).as_serde().is_some());
}

#[test]
fn equality_is_by_value_and_by_key() {
    for (left, right, equal) in [
        ("1", "1.0", true),
        ("1.0", "1", true),
        ("1", "1.5", false),
        ("-0.0", "0", true),
        ("18446744073709551615", "18446744073709551615", true),
        ("18446744073709551615", "1.8446744073709551615e19", false),
        ("9007199254740993", "9007199254740992.0", false),
        ("9007199254740992", "9007199254740992.0", true),
        ("-1", "18446744073709551615", false),
        ("[1, 2]", "[1, 2]", true),
        ("[1, 2]", "[2, 1]", false),
        ("[1, 2]", "[1]", false),
        (r#"{"a": 1, "b": [2]}"#, r#"{"b": [2.0], "a": 1}"#, true),
        (r#"{"a": 1}"#, r#"{"a": 1, "b": 2}"#, false),
        (r#"{"a": 1}"#, r#"{"b": 1}"#, false),
        ("\"a\"", "\"a\"", true),
        ("\"a\"", "\"b\"", false),
        ("true", "1", false),
        ("null", "false", false),
        ("null", "null", true),
        ("{}", "[]", false),
    ] {
        let expected = serde(right);
        let owned = serde(left);
        let parsed = jiter(left);
        assert_eq!(InstanceRef::from_serde(&owned).equals(&expected), equal, "{left} {right}");
        assert_eq!(InstanceRef::from_jiter(&parsed).equals(&expected), equal, "{left} {right}");
        assert_eq!(InstanceRef::from_serde(&expected).equals(&owned), equal, "{right} {left}");
    }
}

#[test]
fn equality_carries_over() {
    let view = jiter(r#"{"a": [1, 2.0], "b": "x"}"#);
    let view = InstanceRef::from_jiter(&view);
    let second = serde(r#"{"b": "x", "a": [1.0, 2]}"#);
    let third = serde(r#"{"a": [1, 2], "b": "x"}"#);
    assert!(view.equals(&second));
    assert!(InstanceRef::from_serde(&second).equals(&third));
    assert!(view.equals(&third));
    assert!(InstanceRef::from_serde(&third).equals(&second));
}

#[test]
fn big_integers_equal_floats_of_their_value() {
    let parsed = jiter("1180591620717411303424");
    assert!(InstanceRef::from_jiter(&parsed).equals(&serde("1180591620717411303424.0")));
    let next = jiter("1180591620717411303425");
    assert!(!InstanceRef::from_jiter(&next).equals(&serde("1180591620717411303424.0")));
    assert!(!InstanceRef::from_jiter(&parsed).equals(&serde("1")));
}

#[test]
fn duplicate_keys_count_in_a_parsed_object() {
    let twice = jiter(r#"{"a": 1, "a": 2}"#);
    let view = InstanceRef::from_jiter(&twice);
    assert!(!view.equals(&serde(r#"{"a": 1}"#)));
    assert_eq!(view.as_object().unwrap().get("a").unwrap().as_i64(), Some(1));
    let owned = view.try_to_owned().unwrap();
    assert!(InstanceRef::from_serde(&owned).equals(&serde(r#"{"a": 2}"#)));
    assert!(!view.equals(&owned));
}

#[test]
fn parts_can_be_compared_alone() {
    let parsed = jiter(r#"[{"a": 1}]"#);
    let view = InstanceRef::from_jiter(&parsed);
    let expected = serde(r#"[{"a": 1.0}]"#);
    assert!(view.equals_array(expected.as_array().unwrap()));
    assert!(!view.equals_array(&[]));
    let member = view.as_array().unwrap().get(0).unwrap();
    let map = expected.as_array().unwrap()[0].as_object().unwrap();
    assert!(member.equals_object(map));
    assert!(!member.equals_object(&ObjectMap::new()));
    assert!(!view.equals_object(map));
    assert!(!member.equals_array(expected.as_array().unwrap()));
}

#[test]
fn a_view_equals_its_owned_value() {
    for text in [
        "null",
        "[1, -1, 1.5, \"x\", {\"b\": true, \"a\": []}]",
        "18446744073709551615",
        "[18446744073709551616, -1180591620717411303424, -18446744073709551616]",
        r#"{"z": 1, "a": {"y": 2, "b": 3}}"#,
    ] {
        let parsed = jiter(text);
        let view = InstanceRef::from_jiter(&parsed);
        let owned = view.try_to_owned().unwrap();
        assert!(view.equals(&owned), "{text}");
        assert!(InstanceRef::from_serde(&owned).equals(&serde(text)), "{text}");
        let again = InstanceRef::from_serde(&owned).to_owned();
        assert!(InstanceRef::from_serde(&again).equals(&owned), "{text}");
    }
}

#[test]
fn an_owned_object_is_in_the_order_of_its_keys() {
    let parsed = jiter(r#"{"z": 1, "a": 2, "m": 3, "a": 4}"#);
    let owned = InstanceRef::from_jiter(&parsed).to_owned();
    let keys: Vec<String> =
        owned.as_object().unwrap().entries.iter().map(|(key, _)| key.clone()).collect();
    assert_eq!(keys, ["a", "m", "z"]);
    assert!(matches!(owned.get("a"), Some(OwnedValue::Number(OwnedNumber::PosInt(4)))));
}

#[test]
fn large_integers_are_owned_as_floats() {
    let parsed = jiter("18446744073709551616");
    let owned = InstanceRef::from_jiter(&parsed).try_to_owned().unwrap();
    let expected = float(18446744073709551616.0);
    assert!(matches!(owned, OwnedValue::Number(OwnedNumber::Float(f)) if f == expected));
    let parsed = jiter("9223372036854775808");
    let owned = InstanceRef::from_jiter(&parsed).try_to_owned().unwrap();
    assert!(matches!(owned, OwnedValue::Number(OwnedNumber::PosInt(9223372036854775808))));
    let parsed = jiter("-9223372036854775809");
    let owned = InstanceRef::from_jiter(&parsed).try_to_owned().unwrap();
    let expected = float(-9223372036854775808.0);
    assert!(matches!(owned, OwnedValue::Number(OwnedNumber::Float(f)) if f == expected));
}

#[test]
fn what_has_no_owned_value_is_told() {
    let infinite = JiterValue::Array(vec![JiterValue::Float(float(f64::INFINITY))]);
    assert!(InstanceRef::from_jiter(&infinite).try_to_owned().is_none());
    let huge = jiter(&format!("1{}", "0".repeat(400)));
    assert!(InstanceRef::from_jiter(&huge).try_to_owned().is_none());
    let finite = JiterValue::Float(float(1.25));
    let owned = InstanceRef::from_jiter(&finite).try_to_owned().unwrap();
    assert!(matches!(owned, OwnedValue::Number(OwnedNumber::Float(f)) if f == float(1.25)));
}

#[test]
fn array_views_agree_with_their_iterators() {
    let owned = serde("[10, 20, 30]");
    let parsed = jiter("[10, 20, 30]");
    for view in [InstanceRef::from_serde(&owned), InstanceRef::from_jiter(&parsed)] {
        let array = view.as_array().unwrap();
        assert!(!array.is_empty());
        let mut items = array.iter();
        for i in 0..3 {
            assert_eq!(items.size_hint(), (3 - i, Some(3 - i)));
            let item = items.next().unwrap();
            assert_eq!(item.as_i64(), Some(10 * (i as i64 + 1)));
            assert_eq!(array.get(i).unwrap().as_i64(), item.as_i64());
        }
        assert_eq!(items.size_hint(), (0, Some(0)));
        assert!(items.next().is_none());
        assert!(items.next().is_none());
    }
    assert!(matches!(InstanceRef::from_serde(&owned).as_array(), Some(ArrayRef::Serde(_))));
    assert!(matches!(InstanceRef::from_jiter(&parsed).as_array(), Some(ArrayRef::Jiter(_))));
    assert!(InstanceRef::from_serde(&serde("[]")).as_array().unwrap().is_empty());
}

#[test]
fn object_views_agree_with_their_iterators() {
    let owned = serde(r#"{"b": 2, "a": 1}"#);
    let parsed = jiter(r#"{"a": 1, "b": 2}"#);
    for view in [InstanceRef::from_serde(&owned), InstanceRef::from_jiter(&parsed)] {
        let object = view.as_object().unwrap();
        assert_eq!(object.len(), 2);
        assert!(!object.is_empty());
        let mut entries = object.iter();
        let mut keys = object.keys();
        let mut values = object.values();
        for (i, key) in ["a", "b"].into_iter().enumerate() {
            assert_eq!(entries.size_hint(), (2 - i, Some(2 - i)));
            assert_eq!(keys.size_hint(), (2 - i, Some(2 - i)));
            assert_eq!(values.size_hint(), (2 - i, Some(2 - i)));
            let (found, value) = entries.next().unwrap();
            assert_eq!(found, key);
            assert_eq!(value.as_i64(), Some(i as i64 + 1));
            assert_eq!(keys.next(), Some(key));
            assert_eq!(values.next().unwrap().as_i64(), Some(i as i64 + 1));
            assert!(object.contains_key(key));
            assert_eq!(object.get(key).unwrap().as_i64(), Some(i as i64 + 1));
        }
        assert!(entries.next().is_none() && entries.next().is_none());
        assert!(keys.next().is_none() && keys.next().is_none());
        assert!(values.next().is_none() && values.next().is_none());
        assert!(!object.contains_key("c"));
        assert!(object.get("c").is_none());
    }
    assert!(matches!(InstanceRef::from_serde(&owned).as_object(), Some(ObjectRef::Serde(_))));
    assert!(matches!(InstanceRef::from_jiter(&parsed).as_object(), Some(ObjectRef::Jiter(_))));
    assert!(InstanceRef::from_serde(&serde("{}")).as_object().unwrap().is_empty());
}

#[test]
fn an_integer_that_is_no_float_differs_from_its_owned_value() {
    let parsed = jiter("18446744073709551617");
    let view = InstanceRef::from_jiter(&parsed);
    let owned = view.try_to_owned().unwrap();
    assert!(matches!(owned, OwnedValue::Number(OwnedNumber::Float(_))));
    assert!(!view.equals(&owned));
}

#[test]
fn values_made_by_hand_can_be_ill_formed() {
    let number = |n: OwnedNumber| OwnedValue::Number(n);
    let items = [number(OwnedNumber::PosInt(1)), number(OwnedNumber::NegInt(-1))];
    assert!(ArrayRef::Serde(&items).is_wf());
    let items = [number(OwnedNumber::PosInt(1)), number(OwnedNumber::NegInt(1))];
    assert!(!ArrayRef::Serde(&items).is_wf());
    let items = [OwnedValue::Array(vec![number(OwnedNumber::Float(float(f64::NAN)))])];
    assert!(!ArrayRef::Serde(&items).is_wf());
    let member = |key: &str| (key.to_string(), OwnedValue::Null);
    let map = |keys: &[&str]| ObjectMap { entries: keys.iter().map(|key| member(key)).collect() };
    assert!(ObjectRef::Serde(&map(&["a", "b", "c"])).is_wf());
    assert!(ObjectRef::Serde(&map(&[])).is_wf());
    assert!(!ObjectRef::Serde(&map(&["a", "c", "b"])).is_wf());
    assert!(!ObjectRef::Serde(&map(&["a", "a"])).is_wf());
    let nested = ObjectMap {
        entries: vec![("a".to_string(), OwnedValue::Object(map(&["b", "a"])))],
    };
    assert!(!ObjectRef::Serde(&nested).is_wf());
    let parsed = jiter(r#"[{"b": 1, "b": 2}]"#);
    let array = InstanceRef::from_jiter(&parsed).as_array().unwrap();
    assert!(array.is_wf());
    assert!(array.get(0).unwrap().as_object().unwrap().is_wf());
}
