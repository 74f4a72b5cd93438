//! Descriptions of Python objects by their addresses, and the graph that they make.

use crate::float64::Float64;
use crate::integer::BigInteger;
use crate::python::{references_below, PythonHeap, PythonObject};
use std::collections::HashMap;
use vstd::prelude::*;

verus! {

broadcast use vstd::std_specs::hash::group_hash_axioms;

/// What Python says of an object, with the parts of a container by their addresses.
#[derive(Debug)]
pub struct PythonReply {
    pub address: usize,
    /// Whether it is `None`.
    pub none: bool,
    /// The truth value of a `bool`.
    pub boolean: Option<bool>,
    /// The text of a `str`, unless that has no UTF-8 encoding.
    pub text: Option<Option<String>>,
    /// The value of an `int`; every `bool` is one.
    pub integer: Option<BigInteger>,
    /// The value of a `float`.
    pub float: Option<Float64>,
    /// The items of a `list`.
    pub list: Option<Vec<usize>>,
    /// The items of a `tuple`.
    pub tuple: Option<Vec<usize>>,
    /// The keys and values of a `dict`, in its order.
    pub dict: Option<Vec<(usize, usize)>>,
}

/// The place of the first of the first `n` descriptions that is of an address.
pub open spec fn place(replies: Seq<PythonReply>, address: usize, n: nat) -> Option<usize>
    decreases n,
{
    if n == 0 {
        None
    } else {
        match place(replies, address, (n - 1) as nat) {
            Some(i) => Some(i),
            None => if replies[n - 1].address == address {
                Some((n - 1) as usize)
            } else {
                None
            },
        }
    }
}

/// The place of the first description that is of an address.
pub open spec fn place_of(replies: Seq<PythonReply>, address: usize) -> Option<usize> {
    place(replies, address, replies.len())
}

/// Whether each address is described.
pub open spec fn all_placed(replies: Seq<PythonReply>, addresses: Seq<usize>) -> bool {
    forall|i: int| 0 <= i < addresses.len() ==> place_of(replies, #[trigger] addresses[i]) is Some
}

/// Whether each key and value is described.
pub open spec fn pairs_placed(replies: Seq<PythonReply>, pairs: Seq<(usize, usize)>) -> bool {
    forall|i: int|
        0 <= i < pairs.len() ==> place_of(replies, (#[trigger] pairs[i]).0) is Some && place_of(
            replies,
            pairs[i].1,
        ) is Some
}

/// Whether these are the places of the addresses.
pub open spec fn are_places(
    replies: Seq<PythonReply>,
    addresses: Seq<usize>,
    places: Seq<usize>,
) -> bool {
    places.len() == addresses.len() && forall|i: int|
        0 <= i < addresses.len() ==> place_of(replies, #[trigger] addresses[i]) == Some(places[i])
}

/// Whether these are the places of the keys and values.
pub open spec fn are_pair_places(
    replies: Seq<PythonReply>,
    pairs: Seq<(usize, usize)>,
    places: Seq<(usize, usize)>,
) -> bool {
    places.len() == pairs.len() && forall|i: int|
        0 <= i < pairs.len() ==> place_of(replies, (#[trigger] pairs[i]).0) == Some(places[i].0)
            && place_of(replies, pairs[i].1) == Some(places[i].1)
}

impl PythonReply {
    /// Whether this is no container: `None`, a `bool`, a `str`, an `int` or a `float`.
    pub open spec fn is_scalar(self) -> bool {
        self.none || self.boolean is Some || self.text is Some || self.integer is Some
            || self.float is Some
    }

    /// Whether all the parts are described.
    pub open spec fn parts_placed(self, replies: Seq<PythonReply>) -> bool {
        if self.is_scalar() {
            true
        } else if self.list is Some {
            all_placed(replies, self.list->0@)
        } else if self.tuple is Some {
            all_placed(replies, self.tuple->0@)
        } else if self.dict is Some {
            pairs_placed(replies, self.dict->0@)
        } else {
            true
        }
    }

    /// Whether this describes an object. A `bool` counts as such, not as an `int`.
    pub open spec fn describes(self, replies: Seq<PythonReply>, object: PythonObject) -> bool {
        if self.none {
            object is NoneObject
        } else if self.boolean is Some {
            object == PythonObject::Bool(self.boolean->0)
        } else if self.text is Some {
            match self.text->0 {
                Some(text) => object matches PythonObject::Str(Some(s)) && s@ == text@,
                None => object == PythonObject::Str(None),
            }
        } else if self.integer is Some {
            object matches PythonObject::Int(n) && n@ == self.integer->0@
        } else if self.float is Some {
            object == PythonObject::Float(self.float->0)
        } else if self.list is Some {
            object matches PythonObject::List(items) && are_places(replies, self.list->0@, items@)
        } else if self.tuple is Some {
            object matches PythonObject::Tuple(items) && are_places(replies, self.tuple->0@, items@)
        } else if self.dict is Some {
            object matches PythonObject::Dict(entries) && are_pair_places(
                replies,
                self.dict->0@,
                entries@,
            )
        } else {
            object is Other
        }
    }

    /// The object that this describes, where all its parts are described.
    fn object(&self, replies: &Vec<PythonReply>, places: &HashMap<usize, usize>) -> (object: Option<
        PythonObject,
    >)
        requires
            forall|a: usize| #[trigger] places@.get(a) == place_of(replies@, a),
        ensures
            object is Some <==> self.parts_placed(replies@),
            object matches Some(o) ==> self.describes(replies@, o),
    {
        if self.none {
            return Some(PythonObject::NoneObject);
        }
        if let Some(boolean) = self.boolean {
            return Some(PythonObject::Bool(boolean));
        }
        if let Some(text) = &self.text {
            return Some(
                PythonObject::Str(
                    match text {
                        Some(text) => Some(text.clone()),
                        None => None,
                    },
                ),
            );
        }
        if let Some(integer) = &self.integer {
            return Some(PythonObject::Int(integer.clone()));
        }
        if let Some(float) = self.float {
            return Some(PythonObject::Float(float));
        }
        if let Some(list) = &self.list {
            return match find_places(replies, places, list) {
                Some(items) => Some(PythonObject::List(items)),
                None => None,
            };
        }
        if let Some(tuple) = &self.tuple {
            return match find_places(replies, places, tuple) {
                Some(items) => Some(PythonObject::Tuple(items)),
                None => None,
            };
        }
        if let Some(dict) = &self.dict {
            return match find_pair_places(replies, places, dict) {
                Some(entries) => Some(PythonObject::Dict(entries)),
                None => None,
            };
        }
        Some(PythonObject::Other)
    }
}

/// The places of addresses, where all are described.
fn find_places(
    replies: &Vec<PythonReply>,
    places: &HashMap<usize, usize>,
    addresses: &Vec<usize>,
) -> (found: Option<Vec<usize>>)
    requires
        forall|a: usize| #[trigger] places@.get(a) == place_of(replies@, a),
    ensures
        found is Some <==> all_placed(replies@, addresses@),
        found matches Some(f) ==> are_places(replies@, addresses@, f@),
{
    let mut found: Vec<usize> = Vec::new();
    let mut i: usize = 0;
    while i < addresses.len()
        invariant
            forall|a: usize| #[trigger] places@.get(a) == place_of(replies@, a),
            i <= addresses.len(),
            found.len() == i,
            forall|k: int|
                0 <= k < i ==> place_of(replies@, #[trigger] addresses@[k]) == Some(found@[k]),
        decreases addresses.len() - i,
    {
        assert(places@.get(addresses@[i as int]) == place_of(replies@, addresses@[i as int]));
        match places.get(&addresses[i]) {
            Some(at) => found.push(*at),
            None => return None,
        }
        i += 1;
    }
    Some(found)
}

/// The places of keys and values, where all are described.
fn find_pair_places(
    replies: &Vec<PythonReply>,
    places: &HashMap<usize, usize>,
    pairs: &Vec<(usize, usize)>,
) -> (found: Option<Vec<(usize, usize)>>)
    requires
        forall|a: usize| #[trigger] places@.get(a) == place_of(replies@, a),
    ensures
        found is Some <==> pairs_placed(replies@, pairs@),
        found matches Some(f) ==> are_pair_places(replies@, pairs@, f@),
{
    let mut found: Vec<(usize, usize)> = Vec::new();
    let mut i: usize = 0;
    while i < pairs.len()
        invariant
            forall|a: usize| #[trigger] places@.get(a) == place_of(replies@, a),
            i <= pairs.len(),
            found.len() == i,
            forall|k: int|
                0 <= k < i ==> place_of(replies@, (#[trigger] pairs@[k]).0) == Some(found@[k].0)
                    && place_of(replies@, pairs@[k].1) == Some(found@[k].1),
        decreases pairs.len() - i,
    {
        let (key, value) = pairs[i];
        assert(pairs@[i as int] == (key, value));
        assert(places@.get(key) == place_of(replies@, key));
        assert(places@.get(value) == place_of(replies@, value));
        match (places.get(&key), places.get(&value)) {
            (Some(key), Some(value)) => found.push((*key, *value)),
            _ => return None,
        }
        i += 1;
    }
    Some(found)
}

/// A place is one of a description of the address.
pub proof fn place_is_described(replies: Seq<PythonReply>, address: usize, n: nat)
    requires
        n <= replies.len() <= usize::MAX,
    ensures
        place(replies, address, n) matches Some(i) ==> i < n && replies[i as int].address
            == address,
        place(replies, address, n) is None ==> forall|k: int|
            0 <= k < n ==> (#[trigger] replies[k]).address != address,
    decreases n,
{
    if n > 0 {
        place_is_described(replies, address, (n - 1) as nat);
    }
}

/// The first description is the first of its address.
pub proof fn first_place(replies: Seq<PythonReply>, n: nat)
    requires
        0 < n <= replies.len(),
    ensures
        place(replies, replies[0].address, n) == Some(0usize),
    decreases n,
{
    if n > 1 {
        first_place(replies, (n - 1) as nat);
    } else {
        assert(place(replies, replies[0].address, 0) is None);
    }
}

impl PythonHeap {
    /// Whether these are the objects that the descriptions make.
    pub open spec fn is_made_of(self, replies: Seq<PythonReply>) -> bool {
        &&& self.objects@.len() == replies.len()
        &&& forall|k: int|
            0 <= k < replies.len() ==> (#[trigger] replies[k]).describes(replies, self.objects@[k])
    }

    /// The graph of the described objects, and in it the object at the address `root`,
    /// where that object and all the parts of objects are described.
    pub fn from_snapshot(replies: &Vec<PythonReply>, root: usize) -> (made: Option<
        (PythonHeap, usize),
    >)
        ensures
            made is Some <==> place_of(replies@, root) is Some && forall|k: int|
                0 <= k < replies@.len() ==> (#[trigger] replies@[k]).parts_placed(replies@),
            made matches Some((heap, id)) ==> {
                &&& heap.wf()
                &&& heap.is_made_of(replies@)
                &&& place_of(replies@, root) == Some(id)
                &&& id < heap.objects@.len()
            },
    {
        let mut places: HashMap<usize, usize> = HashMap::new();
        let mut i: usize = 0;
        while i < replies.len()
            invariant
                i <= replies.len(),
                forall|a: usize| #[trigger] places@.get(a) == place(replies@, a, i as nat),
            decreases replies.len() - i,
        {
            let address: usize = replies[i].address;
            assert(places@.get(address) == place(replies@, address, i as nat));
            let ghost before = places@;
            if !places.contains_key(&address) {
                places.insert(address, i);
            }
            assert forall|a: usize| #[trigger] places@.get(a) == place(
                replies@,
                a,
                (i + 1) as nat,
            ) by {
                assert(before.get(a) == place(replies@, a, i as nat));
            }
            i += 1;
        }
        let mut objects: Vec<PythonObject> = Vec::new();
        let mut k: usize = 0;
        while k < replies.len()
            invariant
                forall|a: usize| #[trigger] places@.get(a) == place_of(replies@, a),
                k <= replies.len(),
                objects.len() == k,
                forall|j: int|
                    0 <= j < k ==> (#[trigger] replies@[j]).parts_placed(replies@)
                        && replies@[j].describes(replies@, objects@[j]),
            decreases replies.len() - k,
        {
            match replies[k].object(replies, &places) {
                Some(object) => objects.push(object),
                None => return None,
            }
            k += 1;
        }
        let heap = PythonHeap { objects };
        assert(places@.get(root) == place_of(replies@, root));
        match places.get(&root) {
            Some(id) => {
                proof {
                    lemma_made_is_wf(heap, replies@);
                    place_is_described(replies@, root, replies@.len());
                }
                Some((heap, *id))
            },
            None => None,
        }
    }
}

/// The objects that descriptions make refer to one another.
proof fn lemma_made_is_wf(heap: PythonHeap, replies: Seq<PythonReply>)
    requires
        heap.is_made_of(replies),
        replies.len() <= usize::MAX,
    ensures
        heap.wf(),
{
    let bound = heap.objects@.len();
    assert forall|id: int| 0 <= id < bound implies #[trigger] references_below(
        heap.objects@[id],
        bound,
    ) by {
        let reply = replies[id];
        let object = heap.objects@[id];
        assert(reply.describes(replies, object));
        match object {
            PythonObject::List(items) => {
                assert forall|i: int| 0 <= i < items@.len() implies items@[i] < bound by {
                    let address = reply.list->0@[i];
                    assert(place_of(replies, address) == Some(items@[i]));
                    place_is_described(replies, address, replies.len());
                }
            },
            PythonObject::Tuple(items) => {
                assert forall|i: int| 0 <= i < items@.len() implies items@[i] < bound by {
                    let address = reply.tuple->0@[i];
                    assert(place_of(replies, address) == Some(items@[i]));
                    place_is_described(replies, address, replies.len());
                }
            },
            PythonObject::Dict(entries) => {
                assert forall|i: int| 0 <= i < entries@.len() implies (#[trigger] entries@[i]).0
                    < bound && entries@[i].1 < bound by {
                    let pair = reply.dict->0@[i];
                    assert(place_of(replies, pair.0) == Some(entries@[i].0));
                    place_is_described(replies, pair.0, replies.len());
                    place_is_described(replies, pair.1, replies.len());
                }
            },
            _ => {},
        }
    }
}

} // verus!
