//! Borrowed views of JSON instances.
//!
//! An [`InstanceRef`] looks at a JSON value where it is: in an owned value, in a
//! value that jiter parsed, or in a graph of Python objects.

use crate::array::ArrayRef;
use crate::float64::Float64;
use crate::jiter_values::JiterValue;
use crate::number::NumberRef;
use crate::object::ObjectRef;
use crate::owned::{
    jiter_is_ownable, jiter_to_serde, ownable, owned_tree, python_is_ownable, python_to_serde,
};
use crate::python::{
    dict_entries, is_finite, is_json, key_text, outside_nothing_is_json, python_tree,
    python_value_is_json, sequence_items, PythonHeap, PythonObject, PythonValue,
};
use crate::text::same_text;
use crate::value::{
    array_view, lookup, map_wf, object_view, trees_of, Json, Num, ObjectMap, OwnedValue,
};
use std::collections::HashSet;
use vstd::prelude::*;

verus! {

/// A borrowed JSON value.
#[derive(Clone, Copy, Debug)]
pub struct InstanceRef<'a> {
    pub repr: InstanceRepr<'a>,
}

/// Where a borrowed JSON value is.
#[derive(Clone, Copy, Debug)]
pub enum InstanceRepr<'a> {
    Serde(&'a OwnedValue),
    Jiter(&'a JiterValue),
    Python(PythonValue<'a>),
}

/// Views of the items of an array.
pub open spec fn serde_instances<'a>(items: Seq<OwnedValue>) -> Seq<InstanceRef<'a>> {
    Seq::new(items.len(), |i: int| InstanceRef { repr: InstanceRepr::Serde(&items[i]) })
}

/// Views of the items of an array.
pub open spec fn jiter_instances<'a>(items: Seq<JiterValue>) -> Seq<InstanceRef<'a>> {
    Seq::new(items.len(), |i: int| InstanceRef { repr: InstanceRepr::Jiter(&items[i]) })
}

/// Views of the items of a `list` or `tuple`.
pub open spec fn python_instances<'a>(heap: &'a PythonHeap, items: Seq<usize>) -> Seq<
    InstanceRef<'a>,
> {
    Seq::new(
        items.len(),
        |i: int| InstanceRef { repr: InstanceRepr::Python(PythonValue { heap, id: items[i] }) },
    )
}

/// The keys of an object, and views of its values.
pub open spec fn serde_entries<'a>(entries: Seq<(String, OwnedValue)>) -> Seq<
    (Seq<char>, InstanceRef<'a>),
> {
    Seq::new(
        entries.len(),
        |i: int| (entries[i].0@, InstanceRef { repr: InstanceRepr::Serde(&entries[i].1) }),
    )
}

/// The keys of an object, and views of its values.
pub open spec fn jiter_entries<'a>(entries: Seq<(String, JiterValue)>) -> Seq<
    (Seq<char>, InstanceRef<'a>),
> {
    Seq::new(
        entries.len(),
        |i: int| (entries[i].0@, InstanceRef { repr: InstanceRepr::Jiter(&entries[i].1) }),
    )
}

/// The texts of the keys of a `dict`, and views of its values.
pub open spec fn python_entries<'a>(heap: &'a PythonHeap, entries: Seq<(usize, usize)>) -> Seq<
    (Seq<char>, InstanceRef<'a>),
> {
    Seq::new(
        entries.len(),
        |i: int|
            (
                key_text(*heap, entries[i].0),
                InstanceRef {
                    repr: InstanceRepr::Python(PythonValue { heap, id: entries[i].1 }),
                },
            ),
    )
}

impl<'a> InstanceRef<'a> {
    /// What holds of every view: the value that it looks at is in good order.
    pub open spec fn wf(self) -> bool {
        match self.repr {
            InstanceRepr::Serde(value) => value.wf(),
            InstanceRepr::Jiter(_) => true,
            InstanceRepr::Python(value) => value.wf(),
        }
    }

    /// Whether the value is null.
    pub open spec fn spec_is_null(self) -> bool {
        match self.repr {
            InstanceRepr::Serde(value) => value is Null,
            InstanceRepr::Jiter(value) => value is Null,
            InstanceRepr::Python(value) => value.spec_object() is NoneObject,
        }
    }

    /// The boolean, where the value is one.
    pub open spec fn spec_as_bool(self) -> Option<bool> {
        match self.repr {
            InstanceRepr::Serde(value) => match *value {
                OwnedValue::Bool(b) => Some(b),
                _ => None,
            },
            InstanceRepr::Jiter(value) => match *value {
                JiterValue::Bool(b) => Some(b),
                _ => None,
            },
            InstanceRepr::Python(value) => match value.spec_object() {
                PythonObject::Bool(b) => Some(b),
                _ => None,
            },
        }
    }

    /// The text, where the value is a string.
    pub open spec fn spec_as_str(self) -> Option<Seq<char>> {
        match self.repr {
            InstanceRepr::Serde(value) => match *value {
                OwnedValue::String(s) => Some(s@),
                _ => None,
            },
            InstanceRepr::Jiter(value) => match *value {
                JiterValue::Str(s) => Some(s@),
                _ => None,
            },
            InstanceRepr::Python(value) => match value.spec_object() {
                PythonObject::Str(Some(s)) => Some(s@),
                _ => None,
            },
        }
    }

    /// A view of the number, where the value is one. A Python float is one where
    /// it is finite.
    pub open spec fn spec_as_number(self) -> Option<NumberRef<'a>> {
        match self.repr {
            InstanceRepr::Serde(value) => match *value {
                OwnedValue::Number(n) => Some(NumberRef::Serde(&n)),
                _ => None,
            },
            InstanceRepr::Jiter(value) => match *value {
                JiterValue::Int(n) => Some(NumberRef::Integer(n)),
                JiterValue::BigInt(n) => Some(NumberRef::BigInteger(&n)),
                JiterValue::Float(f) => Some(NumberRef::Float(f)),
                _ => None,
            },
            InstanceRepr::Python(value) => match value.spec_object() {
                PythonObject::Int(_) => Some(NumberRef::PythonInteger(value)),
                PythonObject::Float(f) => if f.spec_is_finite() {
                    Some(NumberRef::Float(f))
                } else {
                    None
                },
                _ => None,
            },
        }
    }

    /// Views of the items, where the value is an array.
    pub open spec fn spec_items(self) -> Option<Seq<InstanceRef<'a>>> {
        match self.repr {
            InstanceRepr::Serde(value) => match *value {
                OwnedValue::Array(items) => Some(serde_instances(items@)),
                _ => None,
            },
            InstanceRepr::Jiter(value) => match *value {
                JiterValue::Array(items) => Some(jiter_instances(items@)),
                _ => None,
            },
            InstanceRepr::Python(value) => match sequence_items(value.spec_object()) {
                Some(items) => Some(python_instances(value.heap, items)),
                None => None,
            },
        }
    }

    /// The keys and views of the values, where the value is an object.
    pub open spec fn spec_entries(self) -> Option<Seq<(Seq<char>, InstanceRef<'a>)>> {
        match self.repr {
            InstanceRepr::Serde(value) => match *value {
                OwnedValue::Object(map) => Some(serde_entries(map.entries@)),
                _ => None,
            },
            InstanceRepr::Jiter(value) => match *value {
                JiterValue::Object(entries) => Some(jiter_entries(entries@)),
                _ => None,
            },
            InstanceRepr::Python(value) => match dict_entries(value.spec_object()) {
                Some(entries) => Some(python_entries(value.heap, entries)),
                None => None,
            },
        }
    }

    /// JSON Schema equality with a tree: numbers by their mathematical value, arrays
    /// item by item, and objects by their keys, whatever their order.
    pub open spec fn equals_json(self, expected: Json) -> bool
        decreases expected,
    {
        match expected {
            Json::Null => self.spec_is_null(),
            Json::Bool(b) => self.spec_as_bool() == Some(b),
            Json::Number(n) => match self.spec_as_number() {
                Some(number) => number@.equals(n),
                None => false,
            },
            Json::Str(s) => self.spec_as_str() == Some(s),
            Json::Array(items) => match self.spec_items() {
                Some(views) => views.len() == items.len() && forall|i: int|
                    0 <= i < items.len() ==> views[i].equals_json(#[trigger] items[i]),
                None => false,
            },
            Json::Object(members) => match self.spec_entries() {
                Some(entries) => entries.len() == members.len() && forall|i: int|
                    0 <= i < members.len() ==> match lookup(
                        entries,
                        (#[trigger] members[i]).0,
                    ) {
                        Some(view) => view.equals_json(members[i].1),
                        None => false,
                    },
                None => false,
            },
        }
    }

    /// Borrows an owned value.
    pub fn from_serde(value: &'a OwnedValue) -> (view: InstanceRef<'a>)
        ensures
            view.repr == InstanceRepr::Serde(value),
    {
        InstanceRef { repr: InstanceRepr::Serde(value) }
    }

    /// Borrows a value that jiter parsed.
    pub fn from_jiter(value: &'a JiterValue) -> (view: InstanceRef<'a>)
        ensures
            view.repr == InstanceRepr::Jiter(value),
    {
        InstanceRef { repr: InstanceRepr::Jiter(value) }
    }

    /// Borrows a Python object.
    pub fn from_python(value: PythonValue<'a>) -> (view: InstanceRef<'a>)
        ensures
            view.repr == InstanceRepr::Python(value),
    {
        InstanceRef { repr: InstanceRepr::Python(value) }
    }

    /// The owned value that this view was made from, where it was made from one.
    pub fn as_serde(self) -> (value: Option<&'a OwnedValue>)
        ensures
            value is Some <==> self.repr is Serde,
            value matches Some(v) ==> self.repr == InstanceRepr::Serde(v),
    {
        match self.repr {
            InstanceRepr::Serde(value) => Some(value),
            InstanceRepr::Jiter(_) | InstanceRepr::Python(_) => None,
        }
    }

    /// Whether the value is null.
    pub fn is_null(self) -> (null: bool)
        requires
            self.wf(),
        ensures
            null == self.spec_is_null(),
    {
        match self.repr {
            InstanceRepr::Serde(value) => matches!(value, OwnedValue::Null),
            InstanceRepr::Jiter(value) => matches!(value, JiterValue::Null),
            InstanceRepr::Python(value) => matches!(value.object(), PythonObject::NoneObject),
        }
    }

    /// Whether the value is a boolean.
    pub fn is_boolean(self) -> (boolean: bool)
        requires
            self.wf(),
        ensures
            boolean == self.spec_as_bool() is Some,
    {
        self.as_bool().is_some()
    }

    /// The boolean, where the value is one.
    pub fn as_bool(self) -> (boolean: Option<bool>)
        requires
            self.wf(),
        ensures
            boolean == self.spec_as_bool(),
    {
        match self.repr {
            InstanceRepr::Serde(value) => match value {
                OwnedValue::Bool(b) => Some(*b),
                _ => None,
            },
            InstanceRepr::Jiter(value) => match value {
                JiterValue::Bool(b) => Some(*b),
                _ => None,
            },
            InstanceRepr::Python(value) => match value.object() {
                PythonObject::Bool(b) => Some(*b),
                _ => None,
            },
        }
    }

    /// Whether the value is a string.
    pub fn is_string(self) -> (string: bool)
        requires
            self.wf(),
        ensures
            string == self.spec_as_str() is Some,
    {
        self.as_str().is_some()
    }

    /// The text, where the value is a string.
    pub fn as_str(self) -> (text: Option<&'a str>)
        requires
            self.wf(),
        ensures
            text is Some <==> self.spec_as_str() is Some,
            text matches Some(s) ==> self.spec_as_str() == Some(s@),
    {
        match self.repr {
            InstanceRepr::Serde(value) => match value {
                OwnedValue::String(s) => Some(s.as_str()),
                _ => None,
            },
            InstanceRepr::Jiter(value) => match value {
                JiterValue::Str(s) => Some(s.as_str()),
                _ => None,
            },
            InstanceRepr::Python(value) => python_string(value),
        }
    }

    /// Whether the value is a number.
    pub fn is_number(self) -> (number: bool)
        requires
            self.wf(),
        ensures
            number == self.spec_as_number() is Some,
    {
        self.as_number().is_some()
    }

    /// A view of the number, where the value is one. A Python float is one where
    /// it is finite.
    pub fn as_number(self) -> (number: Option<NumberRef<'a>>)
        requires
            self.wf(),
        ensures
            number == self.spec_as_number(),
            number matches Some(n) ==> n.wf(),
    {
        match self.repr {
            InstanceRepr::Serde(value) => match value {
                OwnedValue::Number(n) => Some(NumberRef::Serde(n)),
                _ => None,
            },
            InstanceRepr::Jiter(value) => match value {
                JiterValue::Int(n) => Some(NumberRef::Integer(*n)),
                JiterValue::BigInt(n) => Some(NumberRef::BigInteger(n)),
                JiterValue::Float(f) => Some(NumberRef::Float(*f)),
                _ => None,
            },
            InstanceRepr::Python(value) => match value.object() {
                PythonObject::Int(_) => Some(NumberRef::PythonInteger(value)),
                PythonObject::Float(f) => if f.is_finite() {
                    Some(NumberRef::Float(*f))
                } else {
                    None
                },
                _ => None,
            },
        }
    }
}

impl<'a> InstanceRef<'a> {
    /// The number as an `i64`, where the value is an integer that fits and is not
    /// held as a big integer.
    pub fn as_i64(self) -> (n: Option<i64>)
        requires
            self.wf(),
        ensures
            n is Some <==> self.spec_as_number() is Some && self.spec_as_number()->0 !is BigInteger
                && self.spec_as_number()->0@.integer_between(
                i64::MIN as int,
                i64::MAX as int,
            ) is Some,
            n matches Some(v) ==> self.spec_as_number()->0@ == Num::Int(v as int),
    {
        match self.as_number() {
            Some(number) => number.as_i64(),
            None => None,
        }
    }

    /// The number as a `u64`, where the value is an integer that fits and is not
    /// held as a big integer.
    pub fn as_u64(self) -> (n: Option<u64>)
        requires
            self.wf(),
        ensures
            n is Some <==> self.spec_as_number() is Some && self.spec_as_number()->0 !is BigInteger
                && self.spec_as_number()->0@.integer_between(0, u64::MAX as int) is Some,
            n matches Some(v) ==> self.spec_as_number()->0@ == Num::Int(v as int),
    {
        match self.as_number() {
            Some(number) => number.as_u64(),
            None => None,
        }
    }

    /// The float that the number converts to, where the value is a number.
    pub fn as_f64(self) -> (float: Option<Float64>)
        requires
            self.wf(),
        ensures
            match self.spec_as_number() {
                Some(number) => number.converts_to(float),
                None => float is None,
            },
    {
        match self.as_number() {
            Some(number) => number.as_f64(),
            None => None,
        }
    }

    /// Whether the value is an array.
    pub fn is_array(self) -> (array: bool)
        requires
            self.wf(),
        ensures
            array == self.spec_items() is Some,
    {
        self.as_array().is_some()
    }

    /// A view of the array, where the value is one: in Python a `list` or a `tuple`.
    pub fn as_array(self) -> (array: Option<ArrayRef<'a>>)
        requires
            self.wf(),
        ensures
            array is Some <==> self.spec_items() is Some,
            array matches Some(items) ==> {
                &&& self.spec_items() == Some(items@)
                &&& items.wf()
                &&& items is Serde <==> self.repr is Serde
                &&& items is Jiter <==> self.repr is Jiter
                &&& items is PythonList <==> self.repr is Python
                    && self.repr->Python_0.spec_object() is List
            },
    {
        match self.repr {
            InstanceRepr::Serde(value) => match value {
                OwnedValue::Array(items) => Some(ArrayRef::Serde(items.as_slice())),
                _ => None,
            },
            InstanceRepr::Jiter(value) => match value {
                JiterValue::Array(items) => Some(ArrayRef::Jiter(items.as_slice())),
                _ => None,
            },
            InstanceRepr::Python(value) => match value.object() {
                PythonObject::List(_) => Some(ArrayRef::PythonList(value)),
                PythonObject::Tuple(_) => Some(ArrayRef::PythonTuple(value)),
                _ => None,
            },
        }
    }

    /// Whether the value is an object.
    pub fn is_object(self) -> (object: bool)
        requires
            self.wf(),
        ensures
            object == self.spec_entries() is Some,
    {
        self.as_object().is_some()
    }

    /// A view of the object, where the value is one: in Python a `dict`.
    pub fn as_object(self) -> (object: Option<ObjectRef<'a>>)
        requires
            self.wf(),
        ensures
            object is Some <==> self.spec_entries() is Some,
            object matches Some(entries) ==> {
                &&& self.spec_entries() == Some(entries@)
                &&& entries.wf()
                &&& entries is Serde <==> self.repr is Serde
                &&& entries is Jiter <==> self.repr is Jiter
            },
    {
        match self.repr {
            InstanceRepr::Serde(value) => match value {
                OwnedValue::Object(map) => Some(ObjectRef::Serde(map)),
                _ => None,
            },
            InstanceRepr::Jiter(value) => match value {
                JiterValue::Object(entries) => Some(ObjectRef::Jiter(entries.as_slice())),
                _ => None,
            },
            InstanceRepr::Python(value) => match value.object() {
                PythonObject::Dict(_) => Some(ObjectRef::Python(value)),
                _ => None,
            },
        }
    }

    /// Whether the value is a tree: in Python, whether no container holds itself.
    pub open spec fn spec_is_finite(self) -> bool {
        match self.repr {
            InstanceRepr::Python(value) => is_finite(*value.heap, value.id),
            _ => true,
        }
    }

    /// The value as a tree, where it is one. What Python holds that is not a value
    /// of JSON counts as null.
    pub open spec fn tree(self) -> Json {
        match self.repr {
            InstanceRepr::Serde(value) => value@,
            InstanceRepr::Jiter(value) => value@,
            InstanceRepr::Python(value) => python_tree(*value.heap, value.id),
        }
    }

    /// Whether the value has an owned value.
    pub open spec fn spec_is_ownable(self) -> bool {
        match self.repr {
            InstanceRepr::Serde(_) => true,
            _ => ownable(self.tree()),
        }
    }

    /// The tree of the owned value.
    pub open spec fn spec_to_owned(self) -> Json {
        match self.repr {
            InstanceRepr::Serde(value) => value@,
            _ => owned_tree(self.tree()),
        }
    }

    /// An owned value for what this view looks at.
    pub fn to_owned(self) -> (owned: OwnedValue)
        requires
            self.wf(),
            self.spec_is_finite(),
            self.spec_is_ownable(),
        ensures
            owned@ == self.spec_to_owned(),
            owned.wf(),
    {
        match self.repr {
            InstanceRepr::Serde(value) => value.clone(),
            InstanceRepr::Jiter(value) => jiter_to_serde(value),
            InstanceRepr::Python(value) => python_to_serde(value),
        }
    }

    /// An owned value for what this view looks at, where there is one: a float that
    /// is not finite has none, nor has an integer too large to be read as a number.
    pub fn try_to_owned(self) -> (owned: Option<OwnedValue>)
        requires
            self.wf(),
            self.spec_is_finite(),
        ensures
            owned is Some <==> self.spec_is_ownable(),
            owned matches Some(value) ==> value@ == self.spec_to_owned() && value.wf(),
    {
        let ownable = match self.repr {
            InstanceRepr::Serde(_) => true,
            InstanceRepr::Jiter(value) => jiter_is_ownable(value),
            InstanceRepr::Python(value) => python_is_ownable(value),
        };
        if ownable {
            Some(self.to_owned())
        } else {
            None
        }
    }

    /// Whether this is a value of JSON. Owned values and values that jiter parsed
    /// always are. Of Python, other objects, keys that are no strings, numbers that
    /// are not finite and containers that hold themselves are not.
    pub open spec fn spec_is_json(self) -> bool {
        match self.repr {
            InstanceRepr::Python(value) => is_json(*value.heap, value.id),
            _ => true,
        }
    }

    /// Whether this is a value of JSON.
    pub fn is_json(self) -> (json: bool)
        requires
            self.wf(),
        ensures
            json == self.spec_is_json(),
    {
        if let InstanceRepr::Python(value) = self.repr {
            let mut active: HashSet<usize> = HashSet::new();
            proof {
                outside_nothing_is_json(*value.heap, value.id);
            }
            return python_value_is_json(value, &mut active);
        }
        true
    }

    /// JSON Schema equality with an owned value.
    pub fn equals(self, expected: &OwnedValue) -> (equal: bool)
        requires
            self.wf(),
            expected.wf(),
        ensures
            equal == self.equals_json(expected@),
        decreases expected,
    {
        match expected {
            OwnedValue::Null => self.is_null(),
            OwnedValue::Bool(expected) => match self.as_bool() {
                Some(value) => value == *expected,
                None => false,
            },
            OwnedValue::Number(expected) => match self.as_number() {
                Some(value) => value.equals_serde(expected),
                None => false,
            },
            OwnedValue::String(expected) => match self.as_str() {
                Some(value) => same_text(value, expected.as_str()),
                None => false,
            },
            OwnedValue::Array(items) => {
                proof {
                    array_view(*items);
                    assert(decreases_to!(*expected => expected->Array_0));
                    assert(decreases_to!(*expected => expected->Array_0@));
                }
                self.equals_array(items.as_slice())
            },
            OwnedValue::Object(map) => {
                proof {
                    object_view(*map);
                    assert(decreases_to!(*expected => expected->Object_0));
                    assert(decreases_to!(*expected => expected->Object_0.entries));
                    assert(decreases_to!(*expected => expected->Object_0.entries@));
                }
                self.equals_object(map)
            },
        }
    }

    /// JSON Schema equality with an array of the given items.
    pub fn equals_array(self, expected: &[OwnedValue]) -> (equal: bool)
        requires
            self.wf(),
            forall|i: int| 0 <= i < expected@.len() ==> (#[trigger] expected@[i]).wf(),
        ensures
            equal == self.equals_json(Json::Array(trees_of(expected@))),
        decreases expected@,
    {
        let ghost tree = Json::Array(trees_of(expected@));
        assert(tree->Array_0 == trees_of(expected@));
        match self.as_array() {
            Some(value) => {
                if value.len() != expected.len() {
                    return false;
                }
                let mut items = value.iter();
                let mut i: usize = 0;
                assert(value@.skip(0) =~= value@);
                while i < expected.len()
                    invariant
                        i <= expected.len(),
                        value@.len() == expected@.len(),
                        items.wf(),
                        items@ == value@.skip(i as int),
                        forall|k: int| 0 <= k < expected@.len() ==> (#[trigger] expected@[k]).wf(),
                        self.spec_items() == Some(value@),
                        tree == Json::Array(trees_of(expected@)),
                        tree->Array_0 == trees_of(expected@),
                        forall|k: int|
                            0 <= k < i ==> value@[k].equals_json(#[trigger] tree->Array_0[k]),
                    decreases expected.len() - i,
                {
                    proof {
                        assert(decreases_to!(expected@ => expected@[i as int]));
                        assert(tree->Array_0[i as int] == expected@[i as int]@);
                        assert(value@.skip(i as int).drop_first() =~= value@.skip(i + 1));
                    }
                    match items.next() {
                        Some(item) => if !item.equals(&expected[i]) {
                            return false;
                        },
                        None => return false,
                    }
                    i += 1;
                }
                true
            },
            None => false,
        }
    }

    /// JSON Schema equality with an object of the given members.
    pub fn equals_object(self, expected: &ObjectMap) -> (equal: bool)
        requires
            self.wf(),
            expected.wf(),
        ensures
            equal == self.equals_json(Json::Object(expected@)),
        decreases expected.entries@,
    {
        let ghost tree = Json::Object(expected@);
        assert(tree->Object_0 == expected@);
        proof {
            map_wf(*expected);
        }
        match self.as_object() {
            Some(value) => {
                if value.len() != expected.len() {
                    return false;
                }
                let mut i: usize = 0;
                while i < expected.entries.len()
                    invariant
                        i <= expected.entries.len(),
                        value@.len() == expected@.len(),
                        value.wf(),
                        forall|k: int|
                            0 <= k < expected.entries@.len() ==> (
                            #[trigger] expected.entries@[k]).1.wf(),
                        self.spec_entries() == Some(value@),
                        tree == Json::Object(expected@),
                        tree->Object_0 == expected@,
                        forall|k: int|
                            0 <= k < i ==> match lookup(
                                value@,
                                (#[trigger] tree->Object_0[k]).0,
                            ) {
                                Some(view) => view.equals_json(tree->Object_0[k].1),
                                None => false,
                            },
                    decreases expected.entries.len() - i,
                {
                    let entry = &expected.entries[i];
                    proof {
                        assert(decreases_to!(expected.entries@ => expected.entries@[i as int]));
                        assert(decreases_to!(expected.entries@ => expected.entries@[i as int].1));
                        assert(tree->Object_0[i as int] == (entry.0@, entry.1@));
                    }
                    match value.get(entry.0.as_str()) {
                        Some(view) => if !view.equals(&entry.1) {
                            return false;
                        },
                        None => return false,
                    }
                    i += 1;
                }
                true
            },
            None => false,
        }
    }
}

impl<'a> From<&'a OwnedValue> for InstanceRef<'a> {
    fn from(value: &'a OwnedValue) -> (view: Self) {
        InstanceRef::from_serde(value)
    }
}

impl<'a> vstd::std_specs::convert::FromSpecImpl<&'a OwnedValue> for InstanceRef<'a> {
    open spec fn obeys_from_spec() -> bool {
        true
    }

    open spec fn from_spec(value: &'a OwnedValue) -> Self {
        InstanceRef { repr: InstanceRepr::Serde(value) }
    }
}

/// The text of a Python `str` that has a UTF-8 encoding.
pub fn python_string<'a>(value: PythonValue<'a>) -> (text: Option<&'a str>)
    requires
        value.wf(),
    ensures
        text is Some <==> value.spec_object() matches PythonObject::Str(Some(_)),
        text matches Some(s) ==> value.spec_object()->Str_0->0@ == s@,
{
    match value.object() {
        PythonObject::Str(Some(s)) => Some(s.as_str()),
        _ => None,
    }
}

} // verus!
