//! Values as `jiter` parses them, and values of `jiter` read into them.

use crate::float64::Float64;
use crate::integer::{decimal, BigInteger};
use crate::value::{Json, Num};
use vstd::prelude::*;

verus! {

/// `jiter::JsonValue`, a tree of JSON values.
#[verifier::external_type_specification]
#[verifier::external_body]
pub struct ExJiterValue<'s>(jiter::JsonValue<'s>);

/// A JSON value as `jiter` holds it: an integer is held in one of two ways, and the
/// members of an object are in the order in which they are listed.
pub enum JiterTree {
    Null,
    Bool(bool),
    Int(int),
    BigInt(int),
    Float(Float64),
    Str(Seq<char>),
    Array(Seq<JiterTree>),
    Object(Seq<(Seq<char>, JiterTree)>),
}

impl JiterTree {
    /// The value, without the way in which it is held.
    pub open spec fn json(self) -> Json
        decreases self,
    {
        match self {
            JiterTree::Null => Json::Null,
            JiterTree::Bool(b) => Json::Bool(b),
            JiterTree::Int(n) => Json::Number(Num::Int(n)),
            JiterTree::BigInt(n) => Json::Number(Num::Int(n)),
            JiterTree::Float(f) => Json::Number(Num::Float(f)),
            JiterTree::Str(s) => Json::Str(s),
            JiterTree::Array(items) => Json::Array(
                Seq::new(
                    items.len(),
                    |i: int|
                        if 0 <= i < items.len() {
                            items[i].json()
                        } else {
                            Json::Null
                        },
                ),
            ),
            JiterTree::Object(members) => Json::Object(
                Seq::new(
                    members.len(),
                    |i: int|
                        if 0 <= i < members.len() {
                            (members[i].0, members[i].1.json())
                        } else {
                            (Seq::empty(), Json::Null)
                        },
                ),
            ),
        }
    }
}

/// What a value of `jiter` holds, the members of its objects in the order of its list.
pub uninterp spec fn jiter_tree(value: jiter::JsonValue<'_>) -> JiterTree;

/// One level of a value of `jiter`.
pub enum JiterShape<'a> {
    Null,
    Bool(bool),
    Int(i64),
    /// An integer, by its decimal text.
    BigInt(String),
    Float(Float64),
    Str(&'a str),
    Array(&'a Vec<jiter::JsonValue<'a>>),
    Object(Vec<(&'a str, &'a jiter::JsonValue<'a>)>),
}

impl<'a> JiterShape<'a> {
    /// Whether this is the first level of a tree.
    pub open spec fn is_top_of(self, tree: JiterTree) -> bool {
        match self {
            JiterShape::Null => tree == JiterTree::Null,
            JiterShape::Bool(b) => tree == JiterTree::Bool(b),
            JiterShape::Int(n) => tree == JiterTree::Int(n as int),
            JiterShape::BigInt(text) => exists|n: int|
                text@ == #[trigger] decimal(n) && tree == JiterTree::BigInt(n),
            JiterShape::Float(f) => tree == JiterTree::Float(f),
            JiterShape::Str(s) => tree == JiterTree::Str(s@),
            JiterShape::Array(items) => tree == JiterTree::Array(
                Seq::new(items@.len(), |i: int| jiter_tree(items@[i])),
            ),
            JiterShape::Object(entries) => tree == JiterTree::Object(
                Seq::new(entries@.len(), |i: int| (entries@[i].0@, jiter_tree(*entries@[i].1))),
            ),
        }
    }
}

/// The variant of a `jiter::JsonValue` with what it holds, a float as its bit
/// pattern and a `BigInt` as its `to_string`: trusted to give the first level of
/// its tree.
#[verifier::external_body]
fn jiter_shape<'a>(value: &'a jiter::JsonValue<'a>) -> (shape: JiterShape<'a>)
    ensures
        shape.is_top_of(jiter_tree(*value)),
{
    match value {
        jiter::JsonValue::Null => JiterShape::Null,
        jiter::JsonValue::Bool(b) => JiterShape::Bool(*b),
        jiter::JsonValue::Int(n) => JiterShape::Int(*n),
        jiter::JsonValue::BigInt(n) => JiterShape::BigInt(n.to_string()),
        jiter::JsonValue::Float(v) => JiterShape::Float(Float64 { bits: v.to_bits() }),
        jiter::JsonValue::Str(s) => JiterShape::Str(s.as_ref()),
        jiter::JsonValue::Array(items) => JiterShape::Array(items.as_ref()),
        jiter::JsonValue::Object(m) => {
            JiterShape::Object(m.iter().map(|(k, v)| (k.as_ref(), v)).collect())
        },
    }
}

/// A JSON value as `jiter` parses it: integers outside of `i64` apart from the
/// others, and the members of an object as they were written, whether or not a key
/// occurs twice.
#[derive(Debug)]
pub enum JiterValue {
    Null,
    Bool(bool),
    Int(i64),
    BigInt(BigInteger),
    Float(Float64),
    Str(String),
    Array(Vec<JiterValue>),
    Object(Vec<(String, JiterValue)>),
}

impl JiterValue {
    /// The value as a tree.
    pub open spec fn json(self) -> Json
        decreases self,
    {
        match self {
            JiterValue::Null => Json::Null,
            JiterValue::Bool(b) => Json::Bool(b),
            JiterValue::Int(n) => Json::Number(Num::Int(n as int)),
            JiterValue::BigInt(n) => Json::Number(Num::Int(n@)),
            JiterValue::Float(f) => Json::Number(Num::Float(f)),
            JiterValue::Str(s) => Json::Str(s@),
            JiterValue::Array(items) => Json::Array(
                Seq::new(
                    items@.len(),
                    |i: int|
                        if 0 <= i < items@.len() {
                            items@[i].json()
                        } else {
                            Json::Null
                        },
                ),
            ),
            JiterValue::Object(entries) => Json::Object(
                Seq::new(
                    entries@.len(),
                    |i: int|
                        if 0 <= i < entries@.len() {
                            (entries@[i].0@, entries@[i].1.json())
                        } else {
                            (Seq::empty(), Json::Null)
                        },
                ),
            ),
        }
    }

    /// The value with the way in which it is held.
    pub open spec fn held(self) -> JiterTree
        decreases self,
    {
        match self {
            JiterValue::Null => JiterTree::Null,
            JiterValue::Bool(b) => JiterTree::Bool(b),
            JiterValue::Int(n) => JiterTree::Int(n as int),
            JiterValue::BigInt(n) => JiterTree::BigInt(n@),
            JiterValue::Float(f) => JiterTree::Float(f),
            JiterValue::Str(s) => JiterTree::Str(s@),
            JiterValue::Array(items) => JiterTree::Array(
                Seq::new(
                    items@.len(),
                    |i: int|
                        if 0 <= i < items@.len() {
                            items@[i].held()
                        } else {
                            JiterTree::Null
                        },
                ),
            ),
            JiterValue::Object(entries) => JiterTree::Object(
                Seq::new(
                    entries@.len(),
                    |i: int|
                        if 0 <= i < entries@.len() {
                            (entries@[i].0@, entries@[i].1.held())
                        } else {
                            (Seq::empty(), JiterTree::Null)
                        },
                ),
            ),
        }
    }

    /// The tree of a value is that of what it holds.
    pub proof fn json_is_held(self)
        ensures
            self.json() == self.held().json(),
        decreases self,
    {
        match self {
            JiterValue::Array(items) => {
                assert forall|i: int| 0 <= i < items@.len() implies (
                #[trigger] self.json()->Array_0[i]) == self.held().json()->Array_0[i] by {
                    assert(decreases_to!(self => self->Array_0));
                    assert(decreases_to!(self => self->Array_0@));
                    assert(decreases_to!(self => self->Array_0@[i]));
                    items@[i].json_is_held();
                }
                assert(self.json()->Array_0 =~= self.held().json()->Array_0);
            },
            JiterValue::Object(entries) => {
                assert forall|i: int| 0 <= i < entries@.len() implies (
                #[trigger] self.json()->Object_0[i]) == self.held().json()->Object_0[i] by {
                    assert(decreases_to!(self => self->Object_0));
                    assert(decreases_to!(self => self->Object_0@));
                    assert(decreases_to!(self => self->Object_0@[i]));
                    assert(decreases_to!(self => self->Object_0@[i].1));
                    entries@[i].1.json_is_held();
                }
                assert(self.json()->Object_0 =~= self.held().json()->Object_0);
            },
            _ => {},
        }
    }

    /// The value that a `jiter::JsonValue` holds, held in the same way.
    pub fn from_jiter<'a>(value: &'a jiter::JsonValue<'a>) -> (v: JiterValue)
        ensures
            v.held() == jiter_tree(*value),
            v@ == jiter_tree(*value).json(),
        decreases jiter_tree(*value),
    {
        let shape = jiter_shape(value);
        let v = match shape {
            JiterShape::Null => JiterValue::Null,
            JiterShape::Bool(b) => JiterValue::Bool(b),
            JiterShape::Int(n) => JiterValue::Int(n),
            JiterShape::BigInt(text) => {
                let parsed = BigInteger::parse(text.as_str());
                match parsed {
                    Some(n) => JiterValue::BigInt(n),
                    None => JiterValue::Null,
                }
            },
            JiterShape::Float(f) => JiterValue::Float(f),
            JiterShape::Str(s) => JiterValue::Str(s.to_owned()),
            JiterShape::Array(items) => {
                let mut values: Vec<JiterValue> = Vec::new();
                let mut i: usize = 0;
                while i < items.len()
                    invariant
                        jiter_tree(*value) == JiterTree::Array(
                            Seq::new(items@.len(), |i: int| jiter_tree(items@[i])),
                        ),
                        i <= items.len(),
                        values.len() == i,
                        forall|k: int|
                            0 <= k < i ==> (#[trigger] values@[k]).held() == jiter_tree(items@[k]),
                    decreases items.len() - i,
                {
                    proof {
                        let tree = jiter_tree(*value);
                        assert(tree->Array_0[i as int] == jiter_tree(items@[i as int]));
                        assert(decreases_to!(tree => tree->Array_0));
                        assert(decreases_to!(tree => tree->Array_0[i as int]));
                    }
                    values.push(JiterValue::from_jiter(&items[i]));
                    i += 1;
                }
                let v = JiterValue::Array(values);
                proof {
                    assert(v->Array_0 == values);
                    assert(v.held()->Array_0 =~= jiter_tree(*value)->Array_0);
                }
                v
            },
            JiterShape::Object(members) => {
                let mut entries: Vec<(String, JiterValue)> = Vec::new();
                let mut i: usize = 0;
                while i < members.len()
                    invariant
                        jiter_tree(*value) == JiterTree::Object(
                            Seq::new(
                                members@.len(),
                                |i: int| (members@[i].0@, jiter_tree(*members@[i].1)),
                            ),
                        ),
                        i <= members.len(),
                        entries.len() == i,
                        forall|k: int|
                            0 <= k < i ==> (#[trigger] entries@[k]).0@ == members@[k].0@
                                && entries@[k].1.held() == jiter_tree(*members@[k].1),
                    decreases members.len() - i,
                {
                    proof {
                        let tree = jiter_tree(*value);
                        assert(tree->Object_0[i as int].1 == jiter_tree(*members@[i as int].1));
                        assert(decreases_to!(tree => tree->Object_0));
                        assert(decreases_to!(tree => tree->Object_0[i as int]));
                        assert(decreases_to!(tree => tree->Object_0[i as int].1));
                    }
                    let (key, member) = members[i];
                    entries.push((key.to_owned(), JiterValue::from_jiter(member)));
                    i += 1;
                }
                let v = JiterValue::Object(entries);
                proof {
                    assert(v->Object_0 == entries);
                    assert(v.held()->Object_0 =~= jiter_tree(*value)->Object_0);
                }
                v
            },
        };
        proof {
            v.json_is_held();
        }
        v
    }
}

impl View for JiterValue {
    type V = Json;

    open spec fn view(&self) -> Json {
        self.json()
    }
}

} // verus!
