use json_instance::instance::InstanceRef;
use json_instance::jiter_values::JiterValue;
use json_instance::python::{PythonHeap, PythonValue};
use json_instance::value::OwnedValue;
use pyo3::types::PyAnyMethods;

/// A schema, an instance, and whether the instance is valid.
const CASES: [(&str, &str, bool); 5] = [
    (r#"{"minimum":9.727837981879871e+26}"#, r"9.727837981879871e+26", true),
    (r#"{"maximum":9.727837981879871e+26}"#, r"9.727837981879871e+26", true),
    (r#"{"exclusiveMinimum":9.727837981879871e+26}"#, r"9.727837981879871e+26", false),
    (r#"{"exclusiveMaximum":9.727837981879871e+26}"#, r"9.727837981879871e+26", false),
    (r#"{"multipleOf":0.1}"#, "0.3", true),
];

fn serde(text: &str) -> OwnedValue {
    let value: serde_json::Value = serde_json::from_str(text).unwrap();
    OwnedValue::from_serde(&value)
}

fn number(view: InstanceRef<'_>) -> f64 {
    f64::from_bits(view.as_f64().unwrap().bits)
}

/// The digits of a decimal number without its point, and how many stand behind it.
fn decimal(value: f64) -> (i64, usize) {
    let text = format!("{value}");
    let behind = text.split_once('.').map_or(0, |(_, digits)| digits.len());
    (text.replace('.', "").parse().unwrap(), behind)
}

/// Whether a number is a multiple of another, both taken as they are written.
fn is_multiple(value: f64, of: f64) -> bool {
    let ((a, p), (b, q)) = (decimal(value), decimal(of));
    let places = p.max(q);
    let scale = |digits: i64, behind: usize| digits * 10i64.pow((places - behind) as u32);
    scale(a, p) % scale(b, q) == 0
}

fn is_valid(schema: &OwnedValue, instance: InstanceRef<'_>) -> bool {
    let value = number(instance);
    schema.as_object().unwrap().entries.iter().all(|(keyword, bound)| {
        let bound = number(InstanceRef::from_serde(bound));
        match keyword.as_str() {
            "minimum" => value >= bound,
            "maximum" => value <= bound,
            "exclusiveMinimum" => value > bound,
            "exclusiveMaximum" => value < bound,
            "multipleOf" => is_multiple(value, bound),
            other => panic!("{other}"),
        }
    })
}

#[test]
fn jiter_numeric_validation_matches_serde_at_large_fractional_boundary() {
    for (schema_source, instance_source, expected) in CASES {
        let schema = serde(schema_source);
        let owned = serde(instance_source);
        let parsed = jiter::JsonValue::parse(instance_source.as_bytes(), false).unwrap();
        let parsed = JiterValue::from_jiter(&parsed);
        let view = InstanceRef::from_jiter(&parsed);

        assert_eq!(is_valid(&schema, InstanceRef::from_serde(&owned)), expected, "{schema_source}");
        assert_eq!(
            is_valid(&schema, InstanceRef::from_serde(&owned)),
            is_valid(&schema, view),
            "{schema_source}"
        );
        assert_eq!(view.as_f64(), InstanceRef::from_serde(&owned).as_f64(), "{schema_source}");
        assert!(view.equals(&owned), "{schema_source}");
    }
}

#[test]
fn python_numeric_validation_matches_serde_at_large_fractional_boundary() {
    pyo3::Python::initialize();
    pyo3::Python::attach(|py| {
        let json = py.import("json").unwrap();
        for (schema_source, instance_source, expected) in CASES {
            let schema = serde(schema_source);
            let owned = serde(instance_source);
            let python = json.call_method1("loads", (instance_source,)).unwrap();
            let (heap, id) = PythonHeap::capture(python);
            let view = InstanceRef::from_python(PythonValue { heap: &heap, id });

            assert_eq!(
                is_valid(&schema, InstanceRef::from_serde(&owned)),
                expected,
                "{schema_source}"
            );
            assert_eq!(
                is_valid(&schema, InstanceRef::from_serde(&owned)),
                is_valid(&schema, view),
                "{schema_source}"
            );
            assert!(view.equals(&owned), "{schema_source}");
        }
    });
}
