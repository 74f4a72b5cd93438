//! Tests of well-formedness, for callers that cannot prove it.

use crate::array::ArrayRef;
use crate::object::ObjectRef;
use crate::python::{references_below, PythonHeap, PythonObject, PythonValue};
use crate::text::{is_less, text_less, text_less_transitive};
use crate::value::{map_wf, ObjectMap, OwnedNumber, OwnedValue};
use vstd::prelude::*;

verus! {

/// Whether all the references in a list are less than a bound.
fn are_below(references: &Vec<usize>, bound: usize) -> (yes: bool)
    ensures
        yes == forall|i: int| 0 <= i < references@.len() ==> references@[i] < bound,
{
    let mut i: usize = 0;
    while i < references.len()
        invariant
            i <= references.len(),
            forall|k: int| 0 <= k < i ==> references@[k] < bound,
        decreases references.len() - i,
    {
        if references[i] >= bound {
            return false;
        }
        i += 1;
    }
    true
}

impl PythonObject {
    /// Whether all the references of the object are less than a bound.
    pub fn refers_below(&self, bound: usize) -> (yes: bool)
        ensures
            yes == references_below(*self, bound as nat),
    {
        match self {
            PythonObject::List(items) => are_below(items, bound),
            PythonObject::Tuple(items) => are_below(items, bound),
            PythonObject::Dict(entries) => {
                let mut i: usize = 0;
                while i < entries.len()
                    invariant
                        *self == PythonObject::Dict(*entries),
                        i <= entries.len(),
                        forall|k: int|
                            0 <= k < i ==> (#[trigger] entries@[k]).0 < bound && entries@[k].1
                                < bound,
                    decreases entries.len() - i,
                {
                    let (key, value) = entries[i];
                    if key >= bound || value >= bound {
                        assert(self->Dict_0@[i as int] == (key, value));
                        return false;
                    }
                    i += 1;
                }
                true
            },
            _ => true,
        }
    }
}

impl PythonHeap {
    /// Whether the heap is well-formed.
    pub fn is_wf(&self) -> (yes: bool)
        ensures
            yes == self.wf(),
    {
        let mut i: usize = 0;
        while i < self.objects.len()
            invariant
                i <= self.objects.len(),
                forall|id: int|
                    0 <= id < i ==> #[trigger] references_below(
                        self.objects@[id],
                        self.objects@.len(),
                    ),
            decreases self.objects.len() - i,
        {
            if !self.objects[i].refers_below(self.objects.len()) {
                return false;
            }
            i += 1;
        }
        true
    }
}

impl<'a> PythonValue<'a> {
    /// Whether the value is well-formed.
    pub fn is_wf(self) -> (yes: bool)
        ensures
            yes == self.wf(),
    {
        self.id < self.heap.objects.len() && self.heap.is_wf()
    }
}

impl OwnedNumber {
    /// Whether the number is well-formed.
    pub fn is_wf(&self) -> (yes: bool)
        ensures
            yes == self.wf(),
    {
        match *self {
            OwnedNumber::PosInt(_) => true,
            OwnedNumber::NegInt(n) => n < 0,
            OwnedNumber::Float(f) => f.is_finite(),
        }
    }
}

/// Whether the keys of members ascend.
fn do_keys_ascend(entries: &Vec<(String, OwnedValue)>) -> (yes: bool)
    ensures
        yes == forall|i: int, j: int|
            0 <= i < j < entries@.len() ==> text_less(
                #[trigger] entries@[i].0@,
                #[trigger] entries@[j].0@,
            ),
{
    let mut at: usize = 1;
    while at < entries.len()
        invariant
            1 <= at,
            forall|i: int, j: int|
                0 <= i < j < at && j < entries@.len() ==> text_less(
                    #[trigger] entries@[i].0@,
                    #[trigger] entries@[j].0@,
                ),
        decreases entries.len() - at,
    {
        if !is_less(entries[at - 1].0.as_str(), entries[at].0.as_str()) {
            return false;
        }
        proof {
            let (before, key) = (entries@[at - 1].0@, entries@[at as int].0@);
            assert forall|i: int| 0 <= i < at implies text_less(#[trigger] entries@[i].0@, key) by {
                if i < at - 1 {
                    text_less_transitive(entries@[i].0@, before, key);
                }
            }
        }
        at += 1;
    }
    true
}

impl OwnedValue {
    /// Whether the value is well-formed.
    pub fn is_wf(&self) -> (yes: bool)
        ensures
            yes == self.wf(),
        decreases self,
    {
        match self {
            OwnedValue::Number(n) => n.is_wf(),
            OwnedValue::Array(items) => {
                let mut i: usize = 0;
                while i < items.len()
                    invariant
                        *self == OwnedValue::Array(*items),
                        i <= items.len(),
                        forall|k: int| 0 <= k < i ==> (#[trigger] items@[k]).wf(),
                    decreases items.len() - i,
                {
                    proof {
                        assert(decreases_to!(*self => self->Array_0));
                        assert(decreases_to!(*self => self->Array_0@));
                        assert(decreases_to!(*self => self->Array_0@[i as int]));
                    }
                    if !items[i].is_wf() {
                        return false;
                    }
                    i += 1;
                }
                true
            },
            OwnedValue::Object(map) => {
                assert(decreases_to!(*self => self->Object_0));
                map.is_wf()
            },
            _ => true,
        }
    }
}

impl ObjectMap {
    /// Whether the map is well-formed.
    pub fn is_wf(&self) -> (yes: bool)
        ensures
            yes == self.wf(),
        decreases self,
    {
        proof {
            map_wf(*self);
        }
        let mut i: usize = 0;
        while i < self.entries.len()
            invariant
                i <= self.entries.len(),
                self.wf() ==> forall|k: int|
                    0 <= k < self.entries@.len() ==> (#[trigger] self.entries@[k]).1.wf(),
                forall|k: int| 0 <= k < i ==> (#[trigger] self.entries@[k]).1.wf(),
            decreases self.entries.len() - i,
        {
            let ghost entry = self.entries@[i as int];
            proof {
                assert(decreases_to!(*self => self.entries));
                assert(decreases_to!(*self => self.entries@));
                assert(decreases_to!(*self => self.entries@[i as int]));
                assert(decreases_to!(*self => self.entries@[i as int].1));
            }
            if !self.entries[i].1.is_wf() {
                assert(!entry.1.wf());
                return false;
            }
            i += 1;
        }
        do_keys_ascend(&self.entries)
    }
}

impl<'a> ArrayRef<'a> {
    /// Whether the array is well-formed.
    pub fn is_wf(self) -> (yes: bool)
        ensures
            yes == self.wf(),
    {
        match self {
            ArrayRef::Serde(items) => {
                let mut i: usize = 0;
                while i < items.len()
                    invariant
                        self == ArrayRef::Serde(items),
                        i <= items.len(),
                        forall|k: int| 0 <= k < i ==> (#[trigger] items@[k]).wf(),
                    decreases items.len() - i,
                {
                    if !items[i].is_wf() {
                        assert(!self->Serde_0@[i as int].wf());
                        return false;
                    }
                    i += 1;
                }
                true
            },
            ArrayRef::Jiter(_) => true,
            ArrayRef::PythonList(value) => value.is_wf() && matches!(
                value.heap.objects[value.id],
                PythonObject::List(_)
            ),
            ArrayRef::PythonTuple(value) => value.is_wf() && matches!(
                value.heap.objects[value.id],
                PythonObject::Tuple(_)
            ),
        }
    }
}

impl<'a> ObjectRef<'a> {
    /// Whether the object is well-formed.
    pub fn is_wf(self) -> (yes: bool)
        ensures
            yes == self.wf(),
    {
        match self {
            ObjectRef::Serde(map) => map.is_wf(),
            ObjectRef::Jiter(_) => true,
            ObjectRef::Python(value) => value.is_wf() && matches!(
                value.heap.objects[value.id],
                PythonObject::Dict(_)
            ),
        }
    }
}

} // verus!
