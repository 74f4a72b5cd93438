//! Borrowed JSON arrays.

use crate::instance::{jiter_instances, python_instances, serde_instances, InstanceRef};
use crate::jiter_values::JiterValue;
use crate::python::{references_below, sequence_items, PythonObject, PythonValue};
use crate::value::OwnedValue;
use vstd::prelude::*;

verus! {

/// A borrowed JSON array.
#[derive(Clone, Copy, Debug)]
pub enum ArrayRef<'a> {
    Serde(&'a [OwnedValue]),
    Jiter(&'a [JiterValue]),
    PythonList(PythonValue<'a>),
    PythonTuple(PythonValue<'a>),
}

impl<'a> View for ArrayRef<'a> {
    type V = Seq<InstanceRef<'a>>;

    open spec fn view(&self) -> Seq<InstanceRef<'a>> {
        match *self {
            ArrayRef::Serde(items) => serde_instances(items@),
            ArrayRef::Jiter(items) => jiter_instances(items@),
            ArrayRef::PythonList(value) => python_instances(
                value.heap,
                sequence_items(value.spec_object())->0,
            ),
            ArrayRef::PythonTuple(value) => python_instances(
                value.heap,
                sequence_items(value.spec_object())->0,
            ),
        }
    }
}

/// The numbers of the items of a `list` or `tuple`.
fn python_items<'a>(value: PythonValue<'a>) -> (items: &'a [usize])
    requires
        value.wf(),
        sequence_items(value.spec_object()) is Some,
    ensures
        Some(items@) == sequence_items(value.spec_object()),
        forall|i: int| 0 <= i < items@.len() ==> items@[i] < value.heap.objects@.len(),
{
    assert(references_below(value.spec_object(), value.heap.objects@.len()));
    match value.object() {
        PythonObject::List(items) => items.as_slice(),
        PythonObject::Tuple(items) => items.as_slice(),
        _ => &[],
    }
}

impl<'a> ArrayRef<'a> {
    /// A Python list is a list, a Python tuple is a tuple, and all items are in
    /// good order.
    pub open spec fn wf(self) -> bool {
        match self {
            ArrayRef::Serde(items) => forall|i: int|
                0 <= i < items@.len() ==> (#[trigger] items@[i]).wf(),
            ArrayRef::Jiter(_) => true,
            ArrayRef::PythonList(value) => value.wf() && value.spec_object() is List,
            ArrayRef::PythonTuple(value) => value.wf() && value.spec_object() is Tuple,
        }
    }

    /// The number of items.
    pub fn len(self) -> (n: usize)
        requires
            self.wf(),
        ensures
            n == self@.len(),
    {
        match self {
            ArrayRef::Serde(items) => items.len(),
            ArrayRef::Jiter(items) => items.len(),
            ArrayRef::PythonList(value) => python_items(value).len(),
            ArrayRef::PythonTuple(value) => python_items(value).len(),
        }
    }

    /// Whether there are no items.
    pub fn is_empty(self) -> (empty: bool)
        requires
            self.wf(),
        ensures
            empty == (self@.len() == 0),
    {
        self.len() == 0
    }

    /// The item at an index, where there is one.
    pub fn get(self, index: usize) -> (item: Option<InstanceRef<'a>>)
        requires
            self.wf(),
        ensures
            item == if index < self@.len() {
                Some(self@[index as int])
            } else {
                None
            },
            item matches Some(view) ==> view.wf(),
    {
        match self {
            ArrayRef::Serde(items) => if index < items.len() {
                Some(InstanceRef::from_serde(&items[index]))
            } else {
                None
            },
            ArrayRef::Jiter(items) => if index < items.len() {
                Some(InstanceRef::from_jiter(&items[index]))
            } else {
                None
            },
            ArrayRef::PythonList(value) => {
                let items = python_items(value);
                if index >= items.len() {
                    return None;
                }
                Some(InstanceRef::from_python(PythonValue { heap: value.heap, id: items[index] }))
            },
            ArrayRef::PythonTuple(value) => {
                let items = python_items(value);
                if index >= items.len() {
                    return None;
                }
                Some(InstanceRef::from_python(PythonValue { heap: value.heap, id: items[index] }))
            },
        }
    }

    /// The items, one after the other.
    pub fn iter(self) -> (items: ArrayIter<'a>)
        requires
            self.wf(),
        ensures
            items@ == self@,
            items.wf(),
    {
        let items = match self {
            ArrayRef::Serde(items) => ArrayIter::Serde { items, index: 0 },
            ArrayRef::Jiter(values) => ArrayIter::Jiter { values, index: 0 },
            ArrayRef::PythonList(value) => ArrayIter::Python {
                value,
                index: 0,
                len: self.len(),
                tuple: false,
            },
            ArrayRef::PythonTuple(value) => ArrayIter::Python {
                value,
                index: 0,
                len: self.len(),
                tuple: true,
            },
        };
        assert(items@ =~= self@);
        items
    }
}

/// The items of an array that are still to come.
pub enum ArrayIter<'a> {
    Serde { items: &'a [OwnedValue], index: usize },
    Jiter { values: &'a [JiterValue], index: usize },
    Python { value: PythonValue<'a>, index: usize, len: usize, tuple: bool },
}

impl<'a> View for ArrayIter<'a> {
    type V = Seq<InstanceRef<'a>>;

    open spec fn view(&self) -> Seq<InstanceRef<'a>> {
        match *self {
            ArrayIter::Serde { items, index } => serde_instances(items@).skip(index as int),
            ArrayIter::Jiter { values, index } => jiter_instances(values@).skip(index as int),
            ArrayIter::Python { value, index, .. } => python_instances(
                value.heap,
                sequence_items(value.spec_object())->0,
            ).skip(index as int),
        }
    }
}

impl<'a> ArrayIter<'a> {
    /// The position is within the array, and all items are in good order.
    pub open spec fn wf(self) -> bool {
        match self {
            ArrayIter::Serde { items, index } => index <= items@.len() && forall|i: int|
                0 <= i < items@.len() ==> (#[trigger] items@[i]).wf(),
            ArrayIter::Jiter { values, index } => index <= values@.len(),
            ArrayIter::Python { value, index, len, tuple } => {
                &&& value.wf()
                &&& if tuple {
                    value.spec_object() is Tuple
                } else {
                    value.spec_object() is List
                }
                &&& len == sequence_items(value.spec_object())->0.len()
                &&& index <= len
            },
        }
    }

    /// The next item; `None` when there is none, then and ever after.
    pub fn next(&mut self) -> (item: Option<InstanceRef<'a>>)
        requires
            old(self).wf(),
        ensures
            final(self).wf(),
            item is Some <==> old(self)@.len() > 0,
            item matches Some(view) ==> view == old(self)@[0] && view.wf() && final(self)@
                == old(self)@.drop_first(),
            item is None ==> *final(self) == *old(self),
    {
        let ghost before = self@;
        match self {
            ArrayIter::Serde { items, index } => {
                if *index >= items.len() {
                    return None;
                }
                let item = InstanceRef::from_serde(&items[*index]);
                *index += 1;
                assert(self@ =~= before.drop_first());
                Some(item)
            },
            ArrayIter::Jiter { values, index } => {
                if *index >= values.len() {
                    return None;
                }
                let item = InstanceRef::from_jiter(&values[*index]);
                *index += 1;
                assert(self@ =~= before.drop_first());
                Some(item)
            },
            ArrayIter::Python { value, index, len, tuple: _ } => {
                if *index >= *len {
                    return None;
                }
                let items = python_items(*value);
                let item = InstanceRef::from_python(
                    PythonValue { heap: value.heap, id: items[*index] },
                );
                *index += 1;
                assert(self@ =~= before.drop_first());
                Some(item)
            },
        }
    }

    /// How many items are still to come, as a lower and an upper bound.
    pub fn size_hint(&self) -> (bounds: (usize, Option<usize>))
        requires
            self.wf(),
        ensures
            bounds.0 == self@.len(),
            bounds.1 == Some(bounds.0),
    {
        let remaining: usize = match self {
            ArrayIter::Serde { items, index } => items.len() - *index,
            ArrayIter::Jiter { values, index } => values.len() - *index,
            ArrayIter::Python { index, len, .. } => *len - *index,
        };
        (remaining, Some(remaining))
    }
}

} // verus!
