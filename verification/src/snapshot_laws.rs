//! Laws of the graphs that descriptions of Python objects make.

use crate::python::{PythonHeap, PythonObject};
use crate::python_capture::{looked, reply_looked};
use crate::python_snapshot::{place_is_described, place_of, PythonReply};
use pyo3::prelude::PyAny;
use pyo3::Bound;
use vstd::prelude::*;

verus! {

/// Whether an object is what a description says: of the types that it tells, in the order in
/// which a `bool` comes before an `int`, the first.
pub open spec fn is_as_told(reply: PythonReply, object: PythonObject) -> bool {
    &&& reply.none ==> object is NoneObject
    &&& !reply.none && reply.boolean is Some ==> object == PythonObject::Bool(reply.boolean->0)
    &&& !reply.none && reply.boolean is None ==> {
        &&& reply.text is Some ==> object is Str && (reply.text->0 is Some <==> object->Str_0 is Some)
            && (reply.text->0 is Some ==> object->Str_0->0@ == reply.text->0->0@)
        &&& reply.text is None && reply.integer is Some ==> object is Int && object->Int_0@
            == reply.integer->0@
        &&& reply.text is None && reply.integer is None && reply.float is Some ==> object
            == PythonObject::Float(reply.float->0)
        &&& reply.text is None && reply.integer is None && reply.float is None ==> {
            &&& reply.list is Some ==> object is List && object->List_0@.len()
                == reply.list->0@.len()
            &&& reply.list is None && reply.tuple is Some ==> object is Tuple
                && object->Tuple_0@.len() == reply.tuple->0@.len()
            &&& reply.list is None && reply.tuple is None && reply.dict is Some ==> object is Dict
                && object->Dict_0@.len() == reply.dict->0@.len()
            &&& reply.list is None && reply.tuple is None && reply.dict is None
                ==> object is Other
        }
    }
}

/// Each described object is what its description says.
pub proof fn an_object_is_as_it_is_described(
    replies: Vec<PythonReply>,
    root: usize,
    heap: PythonHeap,
    id: usize,
    k: int,
)
    requires
        call_ensures(PythonHeap::from_snapshot, (&replies, root), Some((heap, id))),
        0 <= k < replies@.len(),
    ensures
        heap.objects@.len() == replies@.len(),
        is_as_told(replies@[k], heap.objects@[k]),
{
    assert(replies@[k].describes(replies@, heap.objects@[k]));
}

/// The root, the items of sequences, and the keys and values of dictionaries are the objects
/// whose descriptions are of the addresses that were told.
pub proof fn parts_are_found_by_their_addresses(
    replies: Vec<PythonReply>,
    root: usize,
    heap: PythonHeap,
    id: usize,
    k: int,
    i: int,
)
    requires
        call_ensures(PythonHeap::from_snapshot, (&replies, root), Some((heap, id))),
        0 <= k < replies@.len(),
    ensures
        id < replies@.len(),
        replies@[id as int].address == root,
        heap.objects@[k] matches PythonObject::List(items) ==> 0 <= i < items@.len()
            ==> items@[i] < replies@.len() && replies@[items@[i] as int].address
            == replies@[k].list->0@[i],
        heap.objects@[k] matches PythonObject::Tuple(items) ==> 0 <= i < items@.len()
            ==> items@[i] < replies@.len() && replies@[items@[i] as int].address
            == replies@[k].tuple->0@[i],
        heap.objects@[k] matches PythonObject::Dict(entries) ==> 0 <= i < entries@.len()
            ==> entries@[i].0 < replies@.len() && entries@[i].1 < replies@.len()
            && replies@[entries@[i].0 as int].address == replies@[k].dict->0@[i].0
            && replies@[entries@[i].1 as int].address == replies@[k].dict->0@[i].1,
{
    let all = replies@;
    assert(all.len() == replies.len());
    assert(all[k].describes(all, heap.objects@[k]));
    place_is_described(all, root, all.len());
    match heap.objects@[k] {
        PythonObject::List(items) => {
            if 0 <= i < items@.len() {
                let address = all[k].list->0@[i];
                assert(place_of(all, address) == Some(items@[i]));
                place_is_described(all, address, all.len());
            }
        },
        PythonObject::Tuple(items) => {
            if 0 <= i < items@.len() {
                let address = all[k].tuple->0@[i];
                assert(place_of(all, address) == Some(items@[i]));
                place_is_described(all, address, all.len());
            }
        },
        PythonObject::Dict(entries) => {
            if 0 <= i < entries@.len() {
                let pair = all[k].dict->0@[i];
                assert(place_of(all, pair.0) == Some(entries@[i].0));
                place_is_described(all, pair.0, all.len());
                place_is_described(all, pair.1, all.len());
            }
        },
        _ => {},
    }
}

/// Whether an address is described.
pub open spec fn is_described(replies: Seq<PythonReply>, address: usize) -> bool {
    exists|k: int| 0 <= k < replies.len() && (#[trigger] replies[k]).address == address
}

/// Whether all the addresses that a description tells are described.
pub open spec fn parts_are_described(replies: Seq<PythonReply>, reply: PythonReply) -> bool {
    &&& reply.list is Some ==> forall|i: int|
        0 <= i < reply.list->0@.len() ==> is_described(replies, #[trigger] reply.list->0@[i])
    &&& reply.tuple is Some ==> forall|i: int|
        0 <= i < reply.tuple->0@.len() ==> is_described(replies, #[trigger] reply.tuple->0@[i])
    &&& reply.dict is Some ==> forall|i: int|
        0 <= i < reply.dict->0@.len() ==> is_described(replies, (#[trigger] reply.dict->0@[i]).0)
            && is_described(replies, reply.dict->0@[i].1)
}

proof fn lemma_described_is_placed(replies: Seq<PythonReply>, address: usize)
    requires
        replies.len() <= usize::MAX,
    ensures
        place_of(replies, address) is Some <==> is_described(replies, address),
{
    place_is_described(replies, address, replies.len());
    if place_of(replies, address) is Some {
        assert(replies[place_of(replies, address)->0 as int].address == address);
    }
}

/// A graph is made where the root is described, and all the addresses that descriptions tell; and
/// none is made where the root is not described.
pub proof fn a_graph_is_made_where_all_is_described(
    replies: Vec<PythonReply>,
    root: usize,
    made: Option<(PythonHeap, usize)>,
)
    requires
        call_ensures(PythonHeap::from_snapshot, (&replies, root), made),
    ensures
        made is Some ==> is_described(replies@, root),
        is_described(replies@, root) && (forall|k: int|
            0 <= k < replies@.len() ==> parts_are_described(replies@, #[trigger] replies@[k]))
            ==> made is Some,
{
    let all = replies@;
    assert(all.len() == replies.len());
    assert forall|address: usize| #[trigger] place_of(all, address) is Some <==> is_described(
        all,
        address,
    ) by {
        lemma_described_is_placed(all, address);
    }
    if is_described(all, root) && (forall|k: int|
        0 <= k < all.len() ==> parts_are_described(all, #[trigger] all[k])) {
        assert(place_of(all, root) is Some);
        assert forall|k: int| 0 <= k < all.len() implies (#[trigger] all[k]).parts_placed(all) by {
            assert(parts_are_described(all, all[k]));
        }
    }
}

/// The object that is captured is what looks at it gave.
pub proof fn the_captured_object_is_as_it_looks<'py>(
    root: Bound<'py, PyAny>,
    heap: PythonHeap,
    id: usize,
)
    requires
        call_ensures(PythonHeap::capture, (root,), (heap, id)),
    ensures
        id < heap.objects@.len(),
        exists|reply: PythonReply| #[trigger]
            reply_looked(root, reply) && is_as_told(reply, heap.objects@[id as int]),
{
    let (objects, replies) = choose|objects: Seq<Bound<'py, PyAny>>, replies: Seq<PythonReply>|
        {
            &&& #[trigger] looked(objects, replies)
            &&& objects.len() > 0
            &&& objects[0] == root
            &&& heap.is_made_of(replies)
            &&& place_of(replies, replies[0].address) == Some(id)
        };
    assert(reply_looked(objects[0], replies[0]));
    assert(replies[0].describes(replies, heap.objects@[0]));
}

} // verus!
