//! Borrowed JSON objects.

use crate::instance::{jiter_entries, python_entries, python_string, serde_entries, InstanceRef};
use crate::jiter_values::JiterValue;
use crate::python::{dict_entries, references_below, PythonObject, PythonValue};
use crate::text::same_text;
use crate::value::{lookup, lookup_absent, lookup_first, lookup_present, map_wf, ObjectMap};
use vstd::prelude::*;

verus! {

/// A borrowed JSON object.
#[derive(Clone, Copy, Debug)]
pub enum ObjectRef<'a> {
    Serde(&'a ObjectMap),
    Jiter(&'a [(String, JiterValue)]),
    Python(PythonValue<'a>),
}

impl<'a> View for ObjectRef<'a> {
    type V = Seq<(Seq<char>, InstanceRef<'a>)>;

    open spec fn view(&self) -> Seq<(Seq<char>, InstanceRef<'a>)> {
        match *self {
            ObjectRef::Serde(map) => serde_entries(map.entries@),
            ObjectRef::Jiter(entries) => jiter_entries(entries@),
            ObjectRef::Python(value) => python_entries(
                value.heap,
                dict_entries(value.spec_object())->0,
            ),
        }
    }
}

/// The numbers of the keys and values of a `dict`.
fn python_dict<'a>(value: PythonValue<'a>) -> (entries: &'a [(usize, usize)])
    requires
        value.wf(),
        value.spec_object() is Dict,
    ensures
        Some(entries@) == dict_entries(value.spec_object()),
        forall|i: int|
            0 <= i < entries@.len() ==> (#[trigger] entries@[i]).0 < value.heap.objects@.len()
                && entries@[i].1 < value.heap.objects@.len(),
{
    assert(references_below(value.spec_object(), value.heap.objects@.len()));
    match value.object() {
        PythonObject::Dict(entries) => entries.as_slice(),
        _ => &[],
    }
}

impl<'a> ObjectRef<'a> {
    /// The object of Python is a `dict`, and all values are in good order.
    pub open spec fn wf(self) -> bool {
        match self {
            ObjectRef::Serde(map) => map.wf(),
            ObjectRef::Jiter(_) => true,
            ObjectRef::Python(value) => value.wf() && value.spec_object() is Dict,
        }
    }

    /// The number of properties.
    pub fn len(self) -> (n: usize)
        requires
            self.wf(),
        ensures
            n == self@.len(),
    {
        match self {
            ObjectRef::Serde(map) => map.entries.len(),
            ObjectRef::Jiter(entries) => entries.len(),
            ObjectRef::Python(value) => python_dict(value).len(),
        }
    }

    /// Whether there are no properties.
    pub fn is_empty(self) -> (empty: bool)
        requires
            self.wf(),
        ensures
            empty == (self@.len() == 0),
    {
        self.len() == 0
    }

    /// The value of the first property with the given key, where there is one.
    pub fn get(self, key: &str) -> (value: Option<InstanceRef<'a>>)
        requires
            self.wf(),
        ensures
            value == lookup(self@, key@),
            value matches Some(view) ==> view.wf(),
    {
        match self {
            ObjectRef::Serde(map) => {
                proof {
                    map_wf(*map);
                }
                match map.get(key) {
                    Some(value) => {
                        proof {
                            let i = choose|i: int|
                                #![trigger map.entries@[i]]
                                0 <= i < map.entries@.len() && map.entries@[i].0@ == key@
                                    && map.entries@[i].1 == *value && forall|j: int|
                                    0 <= j < i ==> (#[trigger] map.entries@[j]).0@ != key@;
                            lookup_first(self@, key@, i);
                        }
                        Some(InstanceRef::from_serde(value))
                    },
                    None => {
                        proof {
                            assert forall|i: int| 0 <= i < self@.len() implies (
                            #[trigger] self@[i]).0 != key@ by {
                                assert(map@[i].0 == self@[i].0);
                                if self@[i].0 == key@ {
                                    lookup_present(map@, key@, i);
                                }
                            }
                            lookup_absent(self@, key@);
                        }
                        None
                    },
                }
            },
            ObjectRef::Jiter(entries) => {
                let mut i: usize = 0;
                while i < entries.len()
                    invariant
                        self@ == jiter_entries::<'a>(entries@),
                        i <= entries.len(),
                        forall|k: int| 0 <= k < i ==> (#[trigger] self@[k]).0 != key@,
                    decreases entries.len() - i,
                {
                    if same_text(entries[i].0.as_str(), key) {
                        proof {
                            lookup_first(self@, key@, i as int);
                        }
                        return Some(InstanceRef::from_jiter(&entries[i].1));
                    }
                    i += 1;
                }
                proof {
                    lookup_absent(self@, key@);
                }
                None
            },
            ObjectRef::Python(_) => {
                let mut entries = self.iter();
                let ghost mut k: int = 0;
                loop
                    invariant
                        entries.wf(),
                        0 <= k <= self@.len(),
                        entries@ == self@.skip(k),
                        forall|j: int| 0 <= j < k ==> (#[trigger] self@[j]).0 != key@,
                    decreases self@.len() - k,
                {
                    match entries.next() {
                        Some((candidate, value)) => {
                            assert(self@.skip(k)[0] == self@[k]);
                            if same_text(candidate, key) {
                                proof {
                                    lookup_first(self@, key@, k);
                                }
                                return Some(value);
                            }
                            proof {
                                assert(self@.skip(k).drop_first() =~= self@.skip(k + 1));
                                k = k + 1;
                            }
                        },
                        None => {
                            proof {
                                lookup_absent(self@, key@);
                            }
                            return None;
                        },
                    }
                }
            },
        }
    }

    /// Whether there is a property with the given key.
    pub fn contains_key(self, key: &str) -> (present: bool)
        requires
            self.wf(),
        ensures
            present == lookup(self@, key@) is Some,
    {
        self.get(key).is_some()
    }

    /// The properties, one after the other.
    pub fn iter(self) -> (entries: ObjectIter<'a>)
        requires
            self.wf(),
        ensures
            entries@ == self@,
            entries.wf(),
    {
        let entries = match self {
            ObjectRef::Serde(map) => ObjectIter::Serde { map, index: 0 },
            ObjectRef::Jiter(entries) => ObjectIter::Jiter { entries, index: 0 },
            ObjectRef::Python(value) => ObjectIter::Python {
                value,
                position: 0,
                remaining: self.len(),
            },
        };
        assert(entries@ =~= self@);
        entries
    }

    /// The keys, one after the other.
    pub fn keys(self) -> (keys: ObjectKeys<'a>)
        requires
            self.wf(),
        ensures
            keys.0@ == self@,
            keys.0.wf(),
    {
        ObjectKeys(self.iter())
    }

    /// The values, one after the other.
    pub fn values(self) -> (values: ObjectValues<'a>)
        requires
            self.wf(),
        ensures
            values.0@ == self@,
            values.0.wf(),
    {
        ObjectValues(self.iter())
    }
}

/// The properties of an object that are still to come.
pub enum ObjectIter<'a> {
    Serde { map: &'a ObjectMap, index: usize },
    Jiter { entries: &'a [(String, JiterValue)], index: usize },
    Python { value: PythonValue<'a>, position: usize, remaining: usize },
}

impl<'a> View for ObjectIter<'a> {
    type V = Seq<(Seq<char>, InstanceRef<'a>)>;

    open spec fn view(&self) -> Seq<(Seq<char>, InstanceRef<'a>)> {
        match *self {
            ObjectIter::Serde { map, index } => serde_entries(map.entries@).skip(index as int),
            ObjectIter::Jiter { entries, index } => jiter_entries(entries@).skip(index as int),
            ObjectIter::Python { value, position, .. } => python_entries(
                value.heap,
                dict_entries(value.spec_object())->0,
            ).skip(position as int),
        }
    }
}

impl<'a> ObjectIter<'a> {
    /// The position is within the object, and all values are in good order.
    pub open spec fn wf(self) -> bool {
        match self {
            ObjectIter::Serde { map, index } => map.wf() && index <= map.entries@.len(),
            ObjectIter::Jiter { entries, index } => index <= entries@.len(),
            ObjectIter::Python { value, position, remaining } => {
                &&& value.wf()
                &&& value.spec_object() is Dict
                &&& position + remaining == dict_entries(value.spec_object())->0.len()
            },
        }
    }

    /// The next property; `None` when there is none, then and ever after.
    pub fn next(&mut self) -> (entry: Option<(&'a str, InstanceRef<'a>)>)
        requires
            old(self).wf(),
        ensures
            final(self).wf(),
            entry is Some <==> old(self)@.len() > 0,
            entry matches Some((key, view)) ==> (key@, view) == old(self)@[0] && view.wf()
                && final(self)@ == old(self)@.drop_first(),
            entry is None ==> *final(self) == *old(self),
    {
        let ghost before = self@;
        match self {
            ObjectIter::Serde { map, index } => {
                if *index >= map.entries.len() {
                    return None;
                }
                proof {
                    map_wf(**map);
                }
                let entry = &map.entries[*index];
                *index += 1;
                assert(self@ =~= before.drop_first());
                Some((entry.0.as_str(), InstanceRef::from_serde(&entry.1)))
            },
            ObjectIter::Jiter { entries, index } => {
                if *index >= entries.len() {
                    return None;
                }
                let entry = &entries[*index];
                *index += 1;
                assert(self@ =~= before.drop_first());
                Some((entry.0.as_str(), InstanceRef::from_jiter(&entry.1)))
            },
            ObjectIter::Python { value, position, remaining } => {
                let entries = python_dict(*value);
                if *position >= entries.len() {
                    return None;
                }
                let (key, child) = entries[*position];
                *position += 1;
                *remaining -= 1;
                let key = PythonValue { heap: value.heap, id: key };
                let child = PythonValue { heap: value.heap, id: child };
                assert(self@ =~= before.drop_first());
                let text = match python_string(key) {
                    Some(text) => text,
                    None => {
                        proof {
                            reveal_strlit("");
                            assert(""@ =~= Seq::<char>::empty());
                        }
                        ""
                    },
                };
                Some((text, InstanceRef::from_python(child)))
            },
        }
    }

    /// How many properties are still to come, as a lower and an upper bound.
    pub fn size_hint(&self) -> (bounds: (usize, Option<usize>))
        requires
            self.wf(),
        ensures
            bounds.0 == self@.len(),
            bounds.1 == Some(bounds.0),
    {
        let remaining: usize = match self {
            ObjectIter::Serde { map, index } => map.entries.len() - *index,
            ObjectIter::Jiter { entries, index } => entries.len() - *index,
            ObjectIter::Python { remaining, .. } => *remaining,
        };
        (remaining, Some(remaining))
    }
}

/// The keys of an object that are still to come.
pub struct ObjectKeys<'a>(pub ObjectIter<'a>);

impl<'a> ObjectKeys<'a> {
    /// The next key; `None` when there is none, then and ever after.
    pub fn next(&mut self) -> (key: Option<&'a str>)
        requires
            old(self).0.wf(),
        ensures
            final(self).0.wf(),
            key is Some <==> old(self).0@.len() > 0,
            key matches Some(text) ==> text@ == old(self).0@[0].0 && final(self).0@
                == old(self).0@.drop_first(),
            key is None ==> *final(self) == *old(self),
    {
        match self.0.next() {
            Some((key, _)) => Some(key),
            None => None,
        }
    }

    /// How many keys are still to come, as a lower and an upper bound.
    pub fn size_hint(&self) -> (bounds: (usize, Option<usize>))
        requires
            self.0.wf(),
        ensures
            bounds.0 == self.0@.len(),
            bounds.1 == Some(bounds.0),
    {
        self.0.size_hint()
    }
}

/// The values of an object that are still to come.
pub struct ObjectValues<'a>(pub ObjectIter<'a>);

impl<'a> ObjectValues<'a> {
    /// The next value; `None` when there is none, then and ever after.
    pub fn next(&mut self) -> (value: Option<InstanceRef<'a>>)
        requires
            old(self).0.wf(),
        ensures
            final(self).0.wf(),
            value is Some <==> old(self).0@.len() > 0,
            value matches Some(view) ==> view == old(self).0@[0].1 && view.wf() && final(self).0@
                == old(self).0@.drop_first(),
            value is None ==> *final(self) == *old(self),
    {
        match self.0.next() {
            Some((_, value)) => Some(value),
            None => None,
        }
    }

    /// How many values are still to come, as a lower and an upper bound.
    pub fn size_hint(&self) -> (bounds: (usize, Option<usize>))
        requires
            self.0.wf(),
        ensures
            bounds.0 == self.0@.len(),
            bounds.1 == Some(bounds.0),
    {
        self.0.size_hint()
    }
}

} // verus!
