use json_instance::compiler::Context;
use json_instance::discriminator::{
    compile_discriminator, discriminator_candidates, required_string_const,
};
use json_instance::error::{JsonType, ValidationError, ValidationErrorKind};
use json_instance::evaluation::EvaluationResult;
use json_instance::instance::InstanceRef;
use json_instance::jiter_values::JiterValue;
use json_instance::one_of::OneOfValidator;
use json_instance::paths::{Location, LocationSegment};
use json_instance::single_one_of::{compile, OneOfKeyword, SingleOneOfValidator};
use json_instance::validator::{to_list, SchemaNode, Validate};
use json_instance::value::{ObjectMap, OwnedValue};

fn serde(text: &str) -> OwnedValue {
    let value: serde_json::Value = serde_json::from_str(text).unwrap();
    OwnedValue::from_serde(&value)
}

fn jiter(text: &str) -> JiterValue {
    let value = jiter::JsonValue::parse(text.as_bytes(), false).unwrap();
    JiterValue::from_jiter(&value)
}

fn leaked<T>(value: T) -> &'static T {
    Box::leak(Box::new(value))
}

/// Calls counted during validation.
#[derive(Default)]
struct Calls {
    verdicts: usize,
}

/// A schema that is interpreted anew for each instance.
#[derive(Clone, Copy)]
struct Schema {
    schema: &'static OwnedValue,
    definitions: &'static ObjectMap,
}

impl Schema {
    fn new(text: &str) -> Schema {
        let schema = leaked(serde(text));
        let mut definitions = ObjectMap::new();
        if let Some(members) = schema.get("$defs") {
            for (name, definition) in &members.as_object().unwrap().entries {
                definitions.insert(format!("#/$defs/{name}"), definition.clone());
            }
        }
        Schema { schema, definitions: leaked(definitions) }
    }

    fn at(&self, schema: &'static OwnedValue) -> Schema {
        Schema { schema, definitions: self.definitions }
    }

    fn context(&self) -> Context<'static> {
        Context { location: Location::new(), resources: self.definitions }
    }

    fn one_of(&self, schema: &'static OwnedValue) -> OneOfKeyword<Schema> {
        let nothing = leaked(ObjectMap::new());
        compile(&self.context(), nothing, schema, |ctx, schema| {
            Ok(SchemaNode { validator: self.at(schema), location: ctx.location().clone() })
        })
        .unwrap()
        .unwrap()
    }

    fn keyword(&self) -> OneOfKeyword<Schema> {
        self.one_of(self.schema.get("oneOf").unwrap())
    }

    fn allows(&self, instance: InstanceRef<'_>, ctx: &mut Calls) -> bool {
        let schema = self.schema;
        if let Some(reference) = schema.get("$ref") {
            let target = self.definitions.get(reference.as_str().unwrap()).unwrap();
            if !self.at(target).allows(instance, ctx) {
                return false;
            }
        }
        if let Some(name) = schema.get("type") {
            let matched = match name.as_str().unwrap() {
                "object" => instance.is_object(),
                "array" => instance.is_array(),
                "string" => instance.is_string(),
                "boolean" => instance.is_boolean(),
                "integer" => instance.as_number().is_some_and(|number| number.is_integer()),
                other => panic!("{other}"),
            };
            if !matched {
                return false;
            }
        }
        if let Some(expected) = schema.get("const") {
            if !instance.equals(expected) {
                return false;
            }
        }
        if let (Some(bound), Some(number)) = (schema.get("minimum"), instance.as_i64()) {
            if number < InstanceRef::from_serde(bound).as_i64().unwrap() {
                return false;
            }
        }
        if let (Some(bound), Some(text)) = (schema.get("minLength"), instance.as_str()) {
            let bound = InstanceRef::from_serde(bound).as_u64().unwrap();
            if (text.chars().count() as u64) < bound {
                return false;
            }
        }
        if let (Some(bound), Some(text)) = (schema.get("maxLength"), instance.as_str()) {
            let bound = InstanceRef::from_serde(bound).as_u64().unwrap();
            if text.chars().count() as u64 > bound {
                return false;
            }
        }
        if let Some(object) = instance.as_object() {
            if let Some(names) = schema.get("required") {
                for name in names.as_array().unwrap() {
                    if !object.contains_key(name.as_str().unwrap()) {
                        return false;
                    }
                }
            }
            let mut entries = object.iter();
            while let Some((key, value)) = entries.next() {
                match schema.get("properties").and_then(|properties| properties.get(key)) {
                    Some(property) => {
                        if !self.at(property).allows(value, ctx) {
                            return false;
                        }
                    }
                    None => {
                        if let Some(OwnedValue::Bool(false)) = schema.get("additionalProperties") {
                            return false;
                        }
                    }
                }
            }
        }
        if let (Some(items), Some(array)) = (schema.get("items"), instance.as_array()) {
            let mut parts = array.iter();
            while let Some(part) = parts.next() {
                if !self.at(items).allows(part, ctx) {
                    return false;
                }
            }
        }
        if let (Some(part), true) = (schema.get("contains"), instance.is_array()) {
            // Decided on an owned value, whatever the instance is held in.
            let owned = instance.try_to_owned().unwrap();
            let array = InstanceRef::from_serde(&owned).as_array().unwrap();
            let mut items = array.iter();
            let mut found = false;
            while let Some(item) = items.next() {
                found = found || self.at(part).allows(item, ctx);
            }
            if !found {
                return false;
            }
        }
        if let Some(branches) = schema.get("oneOf") {
            if !self.one_of(branches).is_valid_instance(instance, ctx) {
                return false;
            }
        }
        true
    }
}

impl Validate for Schema {
    type ValidationContext = Calls;

    type RefTracker = Location;

    fn wf(&self) -> bool {
        unreachable!()
    }

    fn accepts(&self, _: InstanceRef<'_>) -> bool {
        unreachable!()
    }

    fn validates(&self, _: &OwnedValue) -> bool {
        unreachable!()
    }

    fn reports(
        &self,
        _: &OwnedValue,
        _: &Location,
        _: Option<&Location>,
        _: &ValidationError<'_>,
    ) -> bool {
        unreachable!()
    }

    fn lists(
        &self,
        _: &OwnedValue,
        _: &Location,
        _: Option<&Location>,
        _: &Vec<ValidationError<'_>>,
    ) -> bool {
        unreachable!()
    }

    fn evaluates(
        &self,
        _: &OwnedValue,
        _: &Location,
        _: Option<&Location>,
        _: &EvaluationResult,
    ) -> bool {
        unreachable!()
    }

    fn is_evaluation_path(_: Option<&Location>, _: &Location, _: &Location) -> bool {
        unreachable!()
    }

    fn is_valid(&self, instance: &OwnedValue, ctx: &mut Calls) -> bool {
        self.is_valid_instance(InstanceRef::from_serde(instance), ctx)
    }

    fn is_valid_instance(&self, instance: InstanceRef<'_>, ctx: &mut Calls) -> bool {
        ctx.verdicts += 1;
        self.allows(instance, ctx)
    }

    fn validate<'i>(
        &self,
        instance: &'i OwnedValue,
        location: &Location,
        tracker: Option<&Location>,
        ctx: &mut Calls,
    ) -> Result<(), ValidationError<'i>> {
        if self.allows(InstanceRef::from_serde(instance), ctx) {
            Ok(())
        } else {
            Err(ValidationError {
                schema_path: Location::new(),
                evaluation_path: Schema::capture_evaluation_path(tracker, &Location::new()),
                instance_path: location.clone(),
                instance,
                kind: ValidationErrorKind::Other { keyword: "test".to_string() },
            })
        }
    }

    fn iter_errors<'i>(
        &self,
        instance: &'i OwnedValue,
        location: &Location,
        tracker: Option<&Location>,
        ctx: &mut Calls,
    ) -> Vec<ValidationError<'i>> {
        to_list(self.validate(instance, location, tracker, ctx))
    }

    fn evaluate(
        &self,
        instance: &OwnedValue,
        _: &Location,
        _: Option<&Location>,
        ctx: &mut Calls,
    ) -> EvaluationResult {
        if self.allows(InstanceRef::from_serde(instance), ctx) {
            EvaluationResult::Valid { annotations: None, children: Vec::new() }
        } else {
            EvaluationResult::Invalid {
                errors: Vec::new(),
                children: Vec::new(),
                annotations: None,
            }
        }
    }

    fn capture_evaluation_path(tracker: Option<&Location>, location: &Location) -> Location {
        match tracker {
            Some(path) => {
                let mut path = path.clone();
                for segment in &location.segments {
                    path = path.join(segment.clone());
                }
                path
            }
            None => location.clone(),
        }
    }
}

fn pointer(location: &Location) -> String {
    let mut text = String::new();
    for segment in &location.segments {
        match segment {
            LocationSegment::Property(name) => text.push_str(&format!("/{name}")),
            LocationSegment::Index(index) => text.push_str(&format!("/{index}")),
        }
    }
    text
}

fn is_valid(schema: &Schema, instance: &str) -> bool {
    let value = serde(instance);
    schema.is_valid(&value, &mut Calls::default())
}

#[test]
fn required_unique_string_consts_preserve_one_of_semantics() {
    let schema = Schema::new(
        r##"{
            "$defs": {
                "cat": {
                    "type": "object",
                    "required": ["kind", "lives"],
                    "properties": {
                        "kind": {"const": "cat"},
                        "lives": {"type": "integer", "minimum": 1}
                    },
                    "additionalProperties": false
                },
                "dog": {
                    "type": "object",
                    "required": ["kind", "good"],
                    "properties": {
                        "kind": {"const": "dog"},
                        "good": {"type": "boolean"}
                    },
                    "additionalProperties": false
                }
            },
            "oneOf": [
                {"$ref": "#/$defs/cat"},
                {"$ref": "#/$defs/dog"}
            ]
        }"##,
    );

    assert!(is_valid(&schema, r#"{"kind": "cat", "lives": 9}"#));
    assert!(is_valid(&schema, r#"{"kind": "dog", "good": true}"#));
    assert!(!is_valid(&schema, r#"{"kind": "cat", "lives": 0}"#));
    assert!(!is_valid(&schema, r#"{"kind": "dog", "good": "yes"}"#));
    assert!(!is_valid(&schema, r#"{"kind": "bird"}"#));
    assert!(!is_valid(&schema, r#"{"lives": 9}"#));

    let OneOfKeyword::Multiple(keyword) = schema.keyword() else {
        panic!("two subschemas")
    };
    let discriminator = keyword.discriminator.as_ref().unwrap();
    assert_eq!(discriminator.property, "kind");
    let dog = serde(r#"{"kind": "dog", "good": true}"#);
    assert_eq!(keyword.discriminated_branch(InstanceRef::from_serde(&dog)), Some(1));
    let bird = serde(r#"{"kind": "bird"}"#);
    assert_eq!(keyword.discriminated_branch(InstanceRef::from_serde(&bird)), None);

    // Only the branch that the text leads to is asked.
    let mut calls = Calls::default();
    assert!(keyword.is_valid(&dog, &mut calls));
    assert_eq!(calls.verdicts, 1);
    let mut calls = Calls::default();
    assert!(!keyword.is_valid(&bird, &mut calls));
    assert_eq!(calls.verdicts, 2);
}

#[test]
fn repeated_const_values_still_check_every_one_of_branch() {
    let schema = Schema::new(
        r#"{
            "oneOf": [
                {
                    "required": ["kind"],
                    "properties": {"kind": {"const": "same"}}
                },
                {
                    "required": ["kind"],
                    "properties": {"kind": {"const": "same"}}
                }
            ]
        }"#,
    );
    assert!(!is_valid(&schema, r#"{"kind": "same"}"#));
    let OneOfKeyword::Multiple(keyword) = schema.keyword() else {
        panic!("two subschemas")
    };
    assert!(keyword.discriminator.is_none());
}

#[test]
fn borrowed_jiter_instances_use_discriminated_one_of_semantics() {
    let schema = Schema::new(
        r#"{
            "oneOf": [
                {
                    "required": ["kind", "value"],
                    "properties": {
                        "kind": {"const": "text"},
                        "value": {"type": "string"}
                    }
                },
                {
                    "required": ["kind", "value"],
                    "properties": {
                        "kind": {"const": "number"},
                        "value": {"type": "integer"}
                    }
                }
            ]
        }"#,
    );
    for (source, expected) in [
        (r#"{"kind":"text","value":"ok"}"#, true),
        (r#"{"kind":"number","value":42}"#, true),
        (r#"{"kind":"number","value":"bad"}"#, false),
        (r#"{"kind":"unknown","value":42}"#, false),
    ] {
        let parsed = jiter(source);
        assert_eq!(
            schema.is_valid_instance(InstanceRef::from_jiter(&parsed), &mut Calls::default()),
            expected,
            "{source}"
        );
    }
}

#[test]
fn jiter_flag_validation_matches_serde_validation() {
    let schema = Schema::new(
        r##"{
            "$defs": {
                "node": {
                    "oneOf": [
                        {
                            "type": "object",
                            "required": ["kind", "name"],
                            "properties": {
                                "kind": {"const": "leaf"},
                                "name": {"type": "string", "minLength": 1}
                            },
                            "additionalProperties": false
                        },
                        {
                            "type": "object",
                            "required": ["kind", "children"],
                            "properties": {
                                "kind": {"const": "branch"},
                                "children": {
                                    "type": "array",
                                    "items": {"$ref": "#/$defs/node"}
                                }
                            },
                            "additionalProperties": false
                        }
                    ]
                }
            },
            "$ref": "#/$defs/node"
        }"##,
    );
    for (source, expected) in [
        (r#"{"kind":"leaf","name":"Ada"}"#, true),
        (r#"{"kind":"branch","children":[{"kind":"leaf","name":"Ada"}]}"#, true),
        (r#"{"kind":"leaf","name":""}"#, false),
        (r#"{"kind":"branch","children":[{"kind":"unknown"}]}"#, false),
        (r#"{"kind":"leaf","name":"Ada","extra":true}"#, false),
    ] {
        let owned = serde(source);
        let parsed = jiter(source);
        assert_eq!(
            schema.is_valid(&owned, &mut Calls::default()),
            schema.is_valid_instance(InstanceRef::from_jiter(&parsed), &mut Calls::default()),
            "representations disagreed for {source}"
        );
        assert_eq!(schema.is_valid(&owned, &mut Calls::default()), expected, "{source}");
    }
}

#[test]
fn allocation_backed_fallback_does_not_reuse_temporary_instance_cache() {
    let schema = Schema::new(
        r#"{
            "type": "array",
            "items": {
                "contains": {
                    "type": "object",
                    "properties": {"value": {"type": "integer"}},
                    "required": ["value"]
                }
            }
        }"#,
    );
    let source = r#"[[{"value":1}],[{"value":"invalid"}]]"#;
    let owned = serde(source);
    let parsed = jiter(source);

    assert!(!schema.is_valid(&owned, &mut Calls::default()));
    assert_eq!(
        schema.is_valid(&owned, &mut Calls::default()),
        schema.is_valid_instance(InstanceRef::from_jiter(&parsed), &mut Calls::default())
    );
}

#[test]
fn a_view_and_its_owned_value_have_one_verdict() {
    let keyword = Schema::new(
        r#"{"oneOf": [
            {"required": ["kind"], "properties": {"kind": {"const": "a"}, "x": {"type": "integer"}}},
            {"required": ["kind"], "properties": {"kind": {"const": "b"}}}
        ]}"#,
    )
    .keyword();
    for (source, expected) in [
        (r#"{"x": 1, "kind": "a"}"#, true),
        (r#"{"x": "?", "kind": "a"}"#, false),
        (r#"{"z": 36893488147419103233, "kind": "b", "a": 1}"#, true),
        (r#"{"kind": "c"}"#, false),
    ] {
        let parsed = jiter(source);
        let view = InstanceRef::from_jiter(&parsed);
        let owned = view.to_owned();
        assert_eq!(keyword.is_valid_instance(view, &mut Calls::default()), expected, "{source}");
        assert_eq!(keyword.is_valid(&owned, &mut Calls::default()), expected, "{source}");
    }
}

#[test]
fn location() {
    for (schema, instance, expected) in [
        (r#"{"oneOf": [{"type": "string"}]}"#, "0", "/oneOf"),
        (r#"{"oneOf": [{"type": "string"}, {"maxLength": 3}]}"#, r#""""#, "/oneOf"),
    ] {
        let keyword = Schema::new(schema).keyword();
        let value = serde(instance);
        let error = keyword
            .validate(&value, &Location::new(), None, &mut Calls::default())
            .unwrap_err();
        assert_eq!(pointer(&error.schema_path), expected);
        assert_eq!(pointer(&error.evaluation_path), expected);
        assert_eq!(pointer(&error.instance_path), "");
    }
}

const THREE: &str = r#"{"oneOf": [{"type": "integer"}, {"minimum": 2}, {"type": "string"}]}"#;

#[test]
fn exactly_one_branch_must_accept() {
    let schema = Schema::new(THREE);
    let keyword = schema.keyword();
    for (instance, expected) in [("1", true), ("2", false), ("true", true), (r#""x""#, false)] {
        let value = serde(instance);
        assert_eq!(keyword.is_valid(&value, &mut Calls::default()), expected, "{instance}");
        assert_eq!(
            keyword.validate(&value, &Location::new(), None, &mut Calls::default()).is_ok(),
            expected,
            "{instance}"
        );
        let result = keyword.evaluate(&value, &Location::new(), None, &mut Calls::default());
        assert_eq!(matches!(result, EvaluationResult::Valid { .. }), expected, "{instance}");
        let parsed = jiter(instance);
        assert_eq!(
            keyword.is_valid_instance(InstanceRef::from_jiter(&parsed), &mut Calls::default()),
            expected,
            "{instance}"
        );
    }
}

#[test]
fn an_instance_that_no_branch_accepts_is_reported_with_all_errors() {
    let keyword = Schema::new(r#"{"oneOf": [{"type": "integer"}, {"type": "string"}]}"#).keyword();
    let value = serde("null");
    let at = Location::new().join(LocationSegment::Property("a".to_string()));
    let via = Location::new().join(LocationSegment::Property("$ref".to_string()));
    let error = keyword.validate(&value, &at, Some(&via), &mut Calls::default()).unwrap_err();
    assert_eq!(pointer(&error.instance_path), "/a");
    assert_eq!(pointer(&error.schema_path), "/oneOf");
    assert_eq!(pointer(&error.evaluation_path), "/$ref/oneOf");
    assert!(matches!(error.instance, OwnedValue::Null));
    let ValidationErrorKind::OneOfNotValid { context } = error.kind else {
        panic!("no branch accepts")
    };
    assert_eq!(context.iter().map(Vec::len).collect::<Vec<_>>(), [1, 1]);
    assert_eq!(keyword.iter_errors(&value, &at, None, &mut Calls::default()).len(), 1);
    let integer = serde("1");
    assert!(keyword.iter_errors(&integer, &at, None, &mut Calls::default()).is_empty());
    let result = keyword.evaluate(&value, &at, None, &mut Calls::default());
    let EvaluationResult::Invalid { errors, children, annotations } = result else {
        panic!("no branch accepts")
    };
    assert!(errors.is_empty());
    assert!(annotations.is_none());
    assert_eq!(children.iter().map(|child| child.valid).collect::<Vec<_>>(), [false, false]);
    assert_eq!(pointer(&children[1].schema_path), "/oneOf/1");
    assert_eq!(pointer(&children[1].instance_path), "/a");
}

#[test]
fn an_instance_that_several_branches_accept_is_reported() {
    let keyword = Schema::new(THREE).keyword();
    let value = serde("2");
    let error = keyword
        .validate(&value, &Location::new(), None, &mut Calls::default())
        .unwrap_err();
    let ValidationErrorKind::OneOfMultipleValid { context } = error.kind else {
        panic!("two branches accept")
    };
    assert_eq!(context.iter().map(Vec::len).collect::<Vec<_>>(), [0, 0, 1]);
    let result = keyword.evaluate(&value, &Location::new(), None, &mut Calls::default());
    let EvaluationResult::Invalid { errors, children, annotations } = result else {
        panic!("two branches accept")
    };
    assert_eq!(errors.len(), 1);
    assert_eq!(errors[0].keyword, "oneOf");
    assert_eq!(errors[0].message, "more than one subschema succeeded");
    assert!(annotations.is_none());
    assert_eq!(children.len(), 2);
    assert_eq!(pointer(&children[0].schema_path), "/oneOf/0");
    assert_eq!(pointer(&children[1].schema_path), "/oneOf/1");
}

#[test]
fn the_one_accepting_branch_is_evaluated() {
    let keyword = Schema::new(THREE).keyword();
    let value = serde("1");
    let result = keyword.evaluate(&value, &Location::new(), None, &mut Calls::default());
    let EvaluationResult::Valid { children, annotations } = result else {
        panic!("one branch accepts")
    };
    assert!(annotations.is_none());
    assert_eq!(children.len(), 1);
    assert!(children[0].valid);
    assert_eq!(pointer(&children[0].schema_path), "/oneOf/0");
}

#[test]
fn a_single_subschema_means_the_same_as_the_general_form() {
    let schema = Schema::new(r#"{"oneOf": [{"type": "string"}]}"#);
    let items = schema.schema.get("oneOf").unwrap();
    assert!(matches!(schema.keyword(), OneOfKeyword::Single(_)));
    let general = OneOfValidator::compile(&schema.context(), items, |ctx, item| {
        Ok(SchemaNode { validator: schema.at(item), location: ctx.location().clone() })
    })
    .unwrap();
    for (instance, expected) in [("0", false), (r#""x""#, true)] {
        let value = serde(instance);
        let keyword = schema.keyword();
        assert_eq!(keyword.is_valid(&value, &mut Calls::default()), expected);
        assert_eq!(general.is_valid(&value, &mut Calls::default()), expected);
        for result in [
            keyword.evaluate(&value, &Location::new(), None, &mut Calls::default()),
            general.evaluate(&value, &Location::new(), None, &mut Calls::default()),
        ] {
            assert_eq!(matches!(result, EvaluationResult::Valid { .. }), expected);
        }
    }
    let value = serde("0");
    let keyword = schema.keyword();
    let error = keyword
        .validate(&value, &Location::new(), None, &mut Calls::default())
        .unwrap_err();
    let ValidationErrorKind::OneOfNotValid { context } = error.kind else {
        panic!("no branch accepts")
    };
    assert_eq!(context.len(), 1);
    assert_eq!(context[0].len(), 1);
}

#[test]
fn a_keyword_that_is_no_array_is_a_type_error() {
    let schema = Schema::new(r#"{"oneOf": {"type": "string"}}"#);
    let nothing = ObjectMap::new();
    let at = schema.context().new_at_location(LocationSegment::Property("a".to_string()));
    let result: Option<Result<OneOfKeyword<Schema>, _>> =
        compile(&at, leaked(nothing), schema.schema.get("oneOf").unwrap(), |_, _| {
            unreachable!()
        });
    let Some(Err(error)) = result else {
        panic!("no array")
    };
    assert_eq!(pointer(&error.schema_path), "/a/oneOf");
    assert_eq!(pointer(&error.evaluation_path), "/a/oneOf");
    assert_eq!(pointer(&error.instance_path), "");
    assert!(error.instance.as_object().is_some());
    assert!(matches!(error.kind, ValidationErrorKind::Type { expected: JsonType::Array }));
}

#[test]
fn compilation_stops_at_the_first_error() {
    let schema = Schema::new(r#"{"oneOf": [true, null, null]}"#);
    let items = schema.schema.get("oneOf").unwrap();
    let compile_node = |ctx: &Context<'_>, item: &'static OwnedValue| match item {
        OwnedValue::Null => Err(ValidationError::single_type_error(
            ctx.location().clone(),
            ctx.location().clone(),
            Location::new(),
            item,
            JsonType::Object,
        )),
        _ => Ok(SchemaNode { validator: schema.at(item), location: ctx.location().clone() }),
    };
    let Err(error) = OneOfValidator::<Schema>::compile(&schema.context(), items, compile_node)
    else {
        panic!("the second item cannot be compiled")
    };
    assert_eq!(pointer(&error.schema_path), "/oneOf/1");
    let item = &items.as_array().unwrap()[2];
    let Err(error) =
        SingleOneOfValidator::<Schema>::compile(&schema.context(), item, compile_node)
    else {
        panic!("the item cannot be compiled")
    };
    assert_eq!(pointer(&error.schema_path), "/oneOf/0");
}

#[test]
fn the_first_property_that_tells_all_branches_apart_discriminates() {
    for (schemas, property) in [
        (
            r#"[{"required": ["a", "b"], "properties": {"a": {"const": "x"}, "b": {"const": "x"}}},
                {"required": ["b", "a"], "properties": {"a": {"const": "x"}, "b": {"const": "y"}}}]"#,
            Some("b"),
        ),
        (
            r#"[{"required": ["a", "b"], "properties": {"b": {"const": "x"}, "a": {"const": "x"}}},
                {"required": ["b", "a"], "properties": {"a": {"const": "z"}, "b": {"const": "y"}}}]"#,
            Some("a"),
        ),
        (
            r#"[{"required": ["a"], "properties": {"a": {"const": "x"}}},
                {"properties": {"a": {"const": "y"}}}]"#,
            None,
        ),
        (
            r#"[{"required": ["a"], "properties": {"a": {"const": 1}}},
                {"required": ["a"], "properties": {"a": {"const": 2}}}]"#,
            None,
        ),
        (
            r##"[{"$ref": "#/$defs/x"},
                {"required": ["a"], "properties": {"a": {"const": "y"}}}]"##,
            Some("a"),
        ),
        (
            r##"[{"$ref": "#/$defs/missing"},
                {"required": ["a"], "properties": {"a": {"const": "y"}}}]"##,
            None,
        ),
        (
            r#"[{"$ref": 1, "required": [2, "a"], "properties": {"a": {"const": "x"}}}]"#,
            Some("a"),
        ),
        ("[true]", None),
        ("[]", None),
    ] {
        let schema = Schema::new(
            r#"{"$defs": {"x": {"required": ["a"], "properties": {"a": {"const": "x"}}}}}"#,
        );
        let items = serde(schemas);
        let found = compile_discriminator(&schema.context(), items.as_array().unwrap());
        assert_eq!(
            found.as_ref().map(|discriminator| discriminator.property.as_str()),
            property,
            "{schemas}"
        );
        if let Some(discriminator) = found {
            let object = serde(&format!(r#"{{"{}": "x"}}"#, property.unwrap()));
            assert_eq!(discriminator.branch(InstanceRef::from_serde(&object)), Some(0));
            let other = serde(&format!(r#"{{"{}": "?"}}"#, property.unwrap()));
            assert_eq!(discriminator.branch(InstanceRef::from_serde(&other)), None);
            let wrong = serde(&format!(r#"{{"{}": 1}}"#, property.unwrap()));
            assert_eq!(discriminator.branch(InstanceRef::from_serde(&wrong)), None);
            assert_eq!(discriminator.branch(InstanceRef::from_serde(&serde("[]"))), None);
            assert_eq!(discriminator.branch(InstanceRef::from_serde(&serde("{}"))), None);
        }
    }
}

#[test]
fn a_const_is_required_exactly_where_it_is_a_candidate() {
    let schema = Schema::new(
        r#"{"$defs": {"x": {"required": ["a"], "properties": {"a": {"const": "x"}}}}}"#,
    );
    let ctx = schema.context();
    for (subschema, expected) in [
        (
            r#"{"required": ["b", 1, "a", "c", "d"],
                "properties": {"a": {"const": "x"}, "b": {"const": "y"}, "c": {"const": 1}, "e": {"const": "z"}}}"#,
            Some(vec![("b", "y"), ("a", "x")]),
        ),
        (r##"{"$ref": "#/$defs/x", "required": []}"##, Some(vec![("a", "x")])),
        (r##"{"$ref": "#/$defs/missing"}"##, None),
        (r#"{"required": ["a"]}"#, None),
    ] {
        let subschema = serde(subschema);
        let found = discriminator_candidates(&ctx, &subschema);
        let pairs: Option<Vec<(&str, &str)>> = found.as_ref().map(|pairs| {
            pairs.iter().map(|(property, text)| (property.as_str(), text.as_str())).collect()
        });
        assert_eq!(pairs, expected);
        for property in ["a", "b", "c", "d", "e"] {
            let text = required_string_const(&ctx, &subschema, property);
            let listed = expected.iter().flatten().find(|(name, _)| *name == property);
            assert_eq!(text.as_deref(), listed.map(|(_, text)| *text), "{property}");
        }
    }
}
