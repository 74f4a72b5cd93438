//! Python objects as a JSON instance, held as a graph of plain values.

use crate::float64::Float64;
use crate::integer::BigInteger;
use crate::value::{Json, Num};
use std::collections::HashSet;
use vstd::prelude::*;

verus! {

broadcast use vstd::std_specs::hash::group_hash_axioms;

/// One Python object. The parts of a container are numbers of objects in a
/// [`PythonHeap`].
#[derive(Debug)]
pub enum PythonObject {
    NoneObject,
    Bool(bool),
    /// An `int` that is no `bool`.
    Int(BigInteger),
    Float(Float64),
    /// A `str`, with its text unless that has no UTF-8 encoding.
    Str(Option<String>),
    List(Vec<usize>),
    Tuple(Vec<usize>),
    /// The keys and values of a `dict`, in its order.
    Dict(Vec<(usize, usize)>),
    /// An object of any other type.
    Other,
}

/// Python objects that refer to one another.
#[derive(Debug)]
pub struct PythonHeap {
    pub objects: Vec<PythonObject>,
}

impl PythonHeap {
    /// Every object refers to objects of the heap.
    pub open spec fn wf(self) -> bool {
        forall|id: int|
            0 <= id < self.objects@.len() ==> #[trigger] references_below(
                self.objects@[id],
                self.objects@.len(),
            )
    }
}

/// Whether all the references of an object are less than a bound.
pub open spec fn references_below(object: PythonObject, bound: nat) -> bool {
    match object {
        PythonObject::List(items) => forall|i: int| 0 <= i < items@.len() ==> items@[i] < bound,
        PythonObject::Tuple(items) => forall|i: int| 0 <= i < items@.len() ==> items@[i] < bound,
        PythonObject::Dict(entries) => forall|i: int|
            0 <= i < entries@.len() ==> (#[trigger] entries@[i]).0 < bound && entries@[i].1 < bound,
        _ => true,
    }
}

/// The items of a `list` or `tuple`.
pub open spec fn sequence_items(object: PythonObject) -> Option<Seq<usize>> {
    match object {
        PythonObject::List(items) => Some(items@),
        PythonObject::Tuple(items) => Some(items@),
        _ => None,
    }
}

/// The entries of a `dict`.
pub open spec fn dict_entries(object: PythonObject) -> Option<Seq<(usize, usize)>> {
    match object {
        PythonObject::Dict(entries) => Some(entries@),
        _ => None,
    }
}

/// Whether an object that is no container is a value of JSON.
pub open spec fn is_json_scalar(object: PythonObject) -> bool {
    match object {
        PythonObject::NoneObject | PythonObject::Bool(_) | PythonObject::Int(_) => true,
        PythonObject::Float(f) => f.spec_is_finite(),
        PythonObject::Str(text) => text is Some,
        _ => false,
    }
}

/// Whether an object is a value of JSON whose containers are nested no deeper
/// than `height`.
pub open spec fn json_within(heap: PythonHeap, id: usize, height: nat) -> bool
    decreases height,
{
    let object = heap.objects@[id as int];
    if let Some(items) = sequence_items(object) {
        height > 0 && forall|i: int|
            0 <= i < items.len() ==> json_within(heap, #[trigger] items[i], (height - 1) as nat)
    } else if let Some(entries) = dict_entries(object) {
        height > 0 && forall|i: int|
            0 <= i < entries.len() ==> heap.objects@[(#[trigger] entries[i]).0 as int] is Str
                && json_within(heap, entries[i].1, (height - 1) as nat)
    } else {
        is_json_scalar(object)
    }
}

/// Whether an object is a value of JSON: made of `None`, booleans, integers, finite
/// floats, strings, lists, tuples, and dictionaries with string keys, nested to
/// some depth, so that no container holds itself.
pub open spec fn is_json(heap: PythonHeap, id: usize) -> bool {
    exists|height: nat| json_within(heap, id, height)
}

/// Whether an object is a value of JSON whose containers are nested no deeper than
/// `height`, where the containers in `active` count as holding it: no container is one
/// of them, nor one that it is itself in.
pub open spec fn json_outside(
    heap: PythonHeap,
    active: Set<usize>,
    id: usize,
    height: nat,
) -> bool
    decreases height,
{
    let object = heap.objects@[id as int];
    if let Some(items) = sequence_items(object) {
        height > 0 && !active.contains(id) && forall|i: int|
            0 <= i < items.len() ==> json_outside(
                heap,
                active.insert(id),
                #[trigger] items[i],
                (height - 1) as nat,
            )
    } else if let Some(entries) = dict_entries(object) {
        height > 0 && !active.contains(id) && forall|i: int|
            0 <= i < entries.len() ==> heap.objects@[(#[trigger] entries[i]).0 as int] is Str
                && json_outside(heap, active.insert(id), entries[i].1, (height - 1) as nat)
    } else {
        is_json_scalar(object)
    }
}

/// Whether an object is a value of JSON, where the containers in `active` count as
/// holding it.
pub open spec fn is_json_outside(heap: PythonHeap, active: Set<usize>, id: usize) -> bool {
    exists|height: nat| json_outside(heap, active, id, height)
}

/// Whether `child` is an item of the sequence `parent`, or a value of the
/// dictionary `parent`.
pub open spec fn is_child(heap: PythonHeap, parent: usize, child: usize) -> bool {
    let object = heap.objects@[parent as int];
    if let Some(items) = sequence_items(object) {
        items.contains(child)
    } else if let Some(entries) = dict_entries(object) {
        exists|i: int| 0 <= i < entries.len() && (#[trigger] entries[i]).1 == child
    } else {
        false
    }
}

/// Whether `from` holds `to` through `between` containers.
pub open spec fn holds(heap: PythonHeap, from: usize, to: usize, between: nat) -> bool
    decreases between,
{
    if between == 0 {
        is_child(heap, from, to)
    } else {
        exists|mid: usize|
            holds(heap, from, mid, (between - 1) as nat) && #[trigger] is_child(heap, mid, to)
    }
}

/// A child is nested less deep than its parent.
proof fn lemma_child_within(heap: PythonHeap, parent: usize, child: usize, height: nat)
    requires
        json_within(heap, parent, height),
        is_child(heap, parent, child),
    ensures
        height > 0,
        json_within(heap, child, (height - 1) as nat),
{
    let object = heap.objects@[parent as int];
    if let Some(items) = sequence_items(object) {
        let i = choose|i: int| 0 <= i < items.len() && items[i] == child;
        assert(json_within(heap, items[i], (height - 1) as nat));
    }
}

/// What a container holds is nested less deep than it.
proof fn lemma_held_within(heap: PythonHeap, from: usize, to: usize, between: nat, height: nat)
    requires
        json_within(heap, from, height),
        holds(heap, from, to, between),
    ensures
        height > between,
        json_within(heap, to, (height - between - 1) as nat),
    decreases between,
{
    if between == 0 {
        lemma_child_within(heap, from, to, height);
    } else {
        let mid = choose|mid: usize|
            holds(heap, from, mid, (between - 1) as nat) && #[trigger] is_child(heap, mid, to);
        lemma_held_within(heap, from, mid, (between - 1) as nat, height);
        lemma_child_within(heap, mid, to, (height - between) as nat);
    }
}

/// A value of JSON does not hold itself.
proof fn lemma_no_cycle(heap: PythonHeap, id: usize, between: nat, height: nat)
    requires
        holds(heap, id, id, between),
    ensures
        !json_within(heap, id, height),
    decreases height,
{
    if json_within(heap, id, height) {
        lemma_held_within(heap, id, id, between, height);
        lemma_no_cycle(heap, id, between, (height - between - 1) as nat);
    }
}

/// A bound on the depth may be raised.
proof fn lemma_outside_monotone(
    heap: PythonHeap,
    active: Set<usize>,
    id: usize,
    low: nat,
    high: nat,
)
    requires
        json_outside(heap, active, id, low),
        low <= high,
    ensures
        json_outside(heap, active, id, high),
    decreases low,
{
    let object = heap.objects@[id as int];
    let inner = active.insert(id);
    if let Some(items) = sequence_items(object) {
        assert forall|i: int| 0 <= i < items.len() implies json_outside(
            heap,
            inner,
            #[trigger] items[i],
            (high - 1) as nat,
        ) by {
            lemma_outside_monotone(heap, inner, items[i], (low - 1) as nat, (high - 1) as nat);
        }
    } else if let Some(entries) = dict_entries(object) {
        assert forall|i: int| 0 <= i < entries.len() implies heap.objects@[(
        #[trigger] entries[i]).0 as int] is Str && json_outside(
            heap,
            inner,
            entries[i].1,
            (high - 1) as nat,
        ) by {
            lemma_outside_monotone(heap, inner, entries[i].1, (low - 1) as nat, (high - 1) as nat);
        }
    }
}

/// How many numbers below a bound a set leaves out.
pub open spec fn left_out(set: Set<usize>, bound: nat) -> nat
    decreases bound,
{
    if bound == 0 {
        0
    } else {
        let rest = left_out(set, (bound - 1) as nat);
        if set.contains((bound - 1) as usize) {
            rest
        } else {
            rest + 1
        }
    }
}

proof fn lemma_left_out_insert(set: Set<usize>, id: usize, bound: nat)
    requires
        bound <= usize::MAX,
        !set.contains(id),
    ensures
        left_out(set.insert(id), bound) == if id < bound {
            left_out(set, bound) - 1
        } else {
            left_out(set, bound) as int
        },
    decreases bound,
{
    if bound > 0 {
        lemma_left_out_insert(set, id, (bound - 1) as nat);
    }
}

/// A Python object as a JSON instance.
#[derive(Clone, Copy, Debug)]
pub struct PythonValue<'a> {
    pub heap: &'a PythonHeap,
    pub id: usize,
}

impl<'a> PythonValue<'a> {
    pub open spec fn wf(self) -> bool {
        self.heap.wf() && self.id < self.heap.objects@.len()
    }

    /// The object.
    pub open spec fn spec_object(self) -> PythonObject {
        self.heap.objects@[self.id as int]
    }

    /// The object.
    pub fn object(self) -> (object: &'a PythonObject)
        requires
            self.wf(),
        ensures
            *object == self.spec_object(),
    {
        &self.heap.objects[self.id]
    }

    /// The integer, where the object is an `int`.
    pub fn integer(self) -> (n: Option<&'a BigInteger>)
        requires
            self.wf(),
        ensures
            n is Some <==> self.spec_object() is Int,
            n matches Some(v) ==> self.spec_object() == PythonObject::Int(*v),
    {
        match self.object() {
            PythonObject::Int(n) => Some(n),
            _ => None,
        }
    }

    /// The identity of the object: different for different objects of a heap.
    pub fn identity(self) -> (id: usize)
        ensures
            id == self.id,
    {
        self.id
    }
}

/// Where containers hold an object, they and the object hold its children.
proof fn lemma_active_hold_children(
    heap: PythonHeap,
    active: Set<usize>,
    id: usize,
    child: usize,
)
    requires
        forall|c: usize| #[trigger] active.contains(c) ==> exists|n: nat| holds(heap, c, id, n),
        is_child(heap, id, child),
    ensures
        forall|c: usize| #[trigger]
            active.insert(id).contains(c) ==> exists|n: nat| holds(heap, c, child, n),
{
    assert forall|c: usize| #[trigger] active.insert(id).contains(c) implies exists|n: nat|
        holds(heap, c, child, n) by {
        if c == id {
            assert(holds(heap, id, child, 0));
        } else {
            assert(active.contains(c));
            let n = choose|n: nat| holds(heap, c, id, n);
            assert(holds(heap, c, child, n + 1));
        }
    }
}

/// A container that one of its own parts holds is not JSON.
proof fn lemma_active_is_not_json(heap: PythonHeap, active: Set<usize>, id: usize)
    requires
        forall|c: usize| #[trigger] active.contains(c) ==> exists|n: nat| holds(heap, c, id, n),
        active.contains(id),
    ensures
        !is_json(heap, id),
{
    let n = choose|n: nat| holds(heap, id, id, n);
    assert forall|h: nat| !json_within(heap, id, h) by {
        lemma_no_cycle(heap, id, n, h);
    }
}

/// Where the active containers hold an object, they make no difference.
proof fn lemma_within_is_outside(heap: PythonHeap, active: Set<usize>, id: usize, height: nat)
    requires
        forall|c: usize| #[trigger] active.contains(c) ==> exists|n: nat| holds(heap, c, id, n),
        json_within(heap, id, height),
    ensures
        json_outside(heap, active, id, height),
    decreases height,
{
    let object = heap.objects@[id as int];
    let inner = active.insert(id);
    if active.contains(id) {
        lemma_active_is_not_json(heap, active, id);
    }
    if let Some(items) = sequence_items(object) {
        assert forall|i: int| 0 <= i < items.len() implies json_outside(
            heap,
            inner,
            #[trigger] items[i],
            (height - 1) as nat,
        ) by {
            assert(is_child(heap, id, items[i]));
            lemma_active_hold_children(heap, active, id, items[i]);
            lemma_within_is_outside(heap, inner, items[i], (height - 1) as nat);
        }
    } else if let Some(entries) = dict_entries(object) {
        assert forall|i: int| 0 <= i < entries.len() implies heap.objects@[(
        #[trigger] entries[i]).0 as int] is Str && json_outside(
            heap,
            inner,
            entries[i].1,
            (height - 1) as nat,
        ) by {
            assert(is_child(heap, id, entries[i].1));
            lemma_active_hold_children(heap, active, id, entries[i].1);
            lemma_within_is_outside(heap, inner, entries[i].1, (height - 1) as nat);
        }
    }
}

/// Active containers can only make a value be refused.
proof fn lemma_outside_is_within(heap: PythonHeap, active: Set<usize>, id: usize, height: nat)
    requires
        json_outside(heap, active, id, height),
    ensures
        json_within(heap, id, height),
    decreases height,
{
    let object = heap.objects@[id as int];
    let inner = active.insert(id);
    if let Some(items) = sequence_items(object) {
        assert forall|i: int| 0 <= i < items.len() implies json_within(
            heap,
            #[trigger] items[i],
            (height - 1) as nat,
        ) by {
            lemma_outside_is_within(heap, inner, items[i], (height - 1) as nat);
        }
    } else if let Some(entries) = dict_entries(object) {
        assert forall|i: int| 0 <= i < entries.len() implies heap.objects@[(
        #[trigger] entries[i]).0 as int] is Str && json_within(
            heap,
            entries[i].1,
            (height - 1) as nat,
        ) by {
            lemma_outside_is_within(heap, inner, entries[i].1, (height - 1) as nat);
        }
    }
}

/// Where no container is active, or only such as hold the object, what is accepted is
/// exactly the values of JSON.
pub proof fn outside_holders_is_json(heap: PythonHeap, active: Set<usize>, id: usize)
    requires
        forall|c: usize| #[trigger] active.contains(c) ==> exists|n: nat| holds(heap, c, id, n),
    ensures
        is_json_outside(heap, active, id) == is_json(heap, id),
{
    if is_json_outside(heap, active, id) {
        let height = choose|height: nat| json_outside(heap, active, id, height);
        lemma_outside_is_within(heap, active, id, height);
    }
    if is_json(heap, id) {
        let height = choose|height: nat| json_within(heap, id, height);
        lemma_within_is_outside(heap, active, id, height);
    }
}

/// Where no container is active, what is accepted is exactly the values of JSON.
pub proof fn outside_nothing_is_json(heap: PythonHeap, id: usize)
    ensures
        is_json_outside(heap, Set::empty(), id) == is_json(heap, id),
{
    outside_holders_is_json(heap, Set::empty(), id);
}

/// An active container is refused. An object that is no container is accepted exactly
/// where it is a value of JSON, active or not.
pub proof fn active_containers_are_refused(heap: PythonHeap, active: Set<usize>, id: usize)
    ensures
        sequence_items(heap.objects@[id as int]) is Some || dict_entries(
            heap.objects@[id as int],
        ) is Some ==> (active.contains(id) ==> !is_json_outside(heap, active, id)),
        sequence_items(heap.objects@[id as int]) is None && dict_entries(
            heap.objects@[id as int],
        ) is None ==> is_json_outside(heap, active, id) == is_json_scalar(heap.objects@[id as int]),
{
    assert(json_outside(heap, active, id, 0) ==> is_json_outside(heap, active, id));
}

/// Whether the object is a value of JSON, where the `active_containers` count as holding
/// it. They are the same afterwards as before.
pub fn python_value_is_json(
    value: PythonValue<'_>,
    active_containers: &mut HashSet<usize>,
) -> (valid: bool)
    requires
        value.wf(),
    ensures
        valid == is_json_outside(*value.heap, old(active_containers)@, value.id),
        final(active_containers)@ == old(active_containers)@,
    decreases left_out(old(active_containers)@, value.heap.objects@.len()),
{
    let ghost heap = *value.heap;
    let ghost active = active_containers@;
    let identity: usize = value.identity();
    assert(heap.objects@.len() == heap.objects.len());
    match value.object() {
        PythonObject::NoneObject | PythonObject::Bool(_) | PythonObject::Int(_) => {
            assert(json_outside(heap, active, identity, 0));
            true
        },
        PythonObject::Float(f) => {
            assert(f.spec_is_finite() ==> json_outside(heap, active, identity, 0));
            f.is_finite()
        },
        PythonObject::Str(text) => {
            assert(text is Some ==> json_outside(heap, active, identity, 0));
            text.is_some()
        },
        PythonObject::List(items) | PythonObject::Tuple(items) => {
            if !active_containers.insert(identity) {
                proof {
                    active_containers_are_refused(heap, active, identity);
                    assert(active_containers@ =~= active);
                }
                return false;
            }
            let ghost inner = active.insert(identity);
            proof {
                lemma_left_out_insert(active, identity, heap.objects@.len());
            }
            let mut valid: bool = true;
            let ghost mut height: nat = 0;
            let mut i: usize = 0;
            while valid && i < items.len()
                invariant
                    value.wf(),
                    heap == *value.heap,
                    identity == value.id,
                    sequence_items(value.spec_object()) == Some(items@),
                    references_below(value.spec_object(), heap.objects@.len()),
                    i <= items.len(),
                    active_containers@ == inner,
                    inner == active.insert(identity),
                    !active.contains(identity),
                    active == old(active_containers)@,
                    left_out(inner, heap.objects@.len()) < left_out(active, heap.objects@.len()),
                    valid ==> forall|k: int|
                        0 <= k < i ==> json_outside(heap, inner, #[trigger] items@[k], height),
                    !valid ==> !is_json_outside(heap, active, identity),
                decreases items.len() - i, if valid { 1int } else { 0 },
            {
                let item: usize = items[i];
                assert(items@[i as int] == item);
                valid = python_value_is_json(
                    PythonValue { heap: value.heap, id: item },
                    active_containers,
                );
                proof {
                    if valid {
                        let h = choose|h: nat| json_outside(heap, inner, item, h);
                        let taller = if h > height {
                            h
                        } else {
                            height
                        };
                        assert forall|k: int| 0 <= k < i + 1 implies json_outside(
                            heap,
                            inner,
                            #[trigger] items@[k],
                            taller,
                        ) by {
                            if k < i {
                                lemma_outside_monotone(heap, inner, items@[k], height, taller);
                            } else {
                                lemma_outside_monotone(heap, inner, item, h, taller);
                            }
                        }
                        height = taller;
                    } else {
                        let parts = sequence_items(heap.objects@[identity as int])->0;
                        assert(parts[i as int] == item);
                        assert forall|h: nat| !json_outside(heap, active, identity, h) by {
                            if json_outside(heap, active, identity, h) {
                                assert(json_outside(
                                    heap,
                                    inner,
                                    parts[i as int],
                                    (h - 1) as nat,
                                ));
                            }
                        }
                    }
                }
                i += 1;
            }
            active_containers.remove(&identity);
            proof {
                assert(active_containers@ =~= active);
                assert(valid ==> json_outside(heap, active, identity, height + 1));
            }
            valid
        },
        PythonObject::Dict(entries) => {
            if !active_containers.insert(identity) {
                proof {
                    active_containers_are_refused(heap, active, identity);
                    assert(active_containers@ =~= active);
                }
                return false;
            }
            let ghost inner = active.insert(identity);
            proof {
                lemma_left_out_insert(active, identity, heap.objects@.len());
            }
            let ghost mut height: nat = 0;
            let mut i: usize = 0;
            while i < entries.len()
                invariant
                    value.wf(),
                    heap == *value.heap,
                    identity == value.id,
                    sequence_items(value.spec_object()) is None,
                    dict_entries(value.spec_object()) == Some(entries@),
                    references_below(value.spec_object(), heap.objects@.len()),
                    i <= entries.len(),
                    active_containers@ == inner,
                    inner == active.insert(identity),
                    !active.contains(identity),
                    active == old(active_containers)@,
                    left_out(inner, heap.objects@.len()) < left_out(active, heap.objects@.len()),
                    forall|k: int|
                        0 <= k < i ==> heap.objects@[(#[trigger] entries@[k]).0 as int] is Str
                            && json_outside(heap, inner, entries@[k].1, height),
                decreases entries.len() - i,
            {
                let (key, child) = entries[i];
                assert(entries@[i as int] == (key, child));
                let key_is_text: bool = match &value.heap.objects[key] {
                    PythonObject::Str(_) => true,
                    _ => false,
                };
                if !key_is_text {
                    active_containers.remove(&identity);
                    proof {
                        assert(active_containers@ =~= active);
                        assert forall|h: nat| !json_outside(heap, active, identity, h) by {
                            assert(heap.objects@[entries@[i as int].0 as int] !is Str);
                        }
                    }
                    return false;
                }
                let held = PythonValue { heap: value.heap, id: child };
                let child_valid: bool = python_value_is_json(held, active_containers);
                if !child_valid {
                    active_containers.remove(&identity);
                    proof {
                        assert(active_containers@ =~= active);
                        assert forall|h: nat| !json_outside(heap, active, identity, h) by {
                            if h > 0 {
                                assert(!json_outside(
                                    heap,
                                    inner,
                                    entries@[i as int].1,
                                    (h - 1) as nat,
                                ));
                            }
                        }
                    }
                    return false;
                }
                proof {
                    let h = choose|h: nat| json_outside(heap, inner, child, h);
                    let taller = if h > height {
                        h
                    } else {
                        height
                    };
                    assert forall|k: int| 0 <= k < i + 1 implies heap.objects@[(
                    #[trigger] entries@[k]).0 as int] is Str && json_outside(
                        heap,
                        inner,
                        entries@[k].1,
                        taller,
                    ) by {
                        if k < i {
                            lemma_outside_monotone(heap, inner, entries@[k].1, height, taller);
                        } else {
                            lemma_outside_monotone(heap, inner, child, h, taller);
                        }
                    }
                    height = taller;
                }
                i += 1;
            }
            active_containers.remove(&identity);
            proof {
                assert(active_containers@ =~= active);
                assert(json_outside(heap, active, identity, height + 1));
            }
            true
        },
        PythonObject::Other => {
            assert(forall|h: nat| !json_outside(heap, active, identity, h));
            false
        },
    }
}

/// The text of a key; a key that is no string, or has no UTF-8 encoding, counts
/// as the empty text.
pub open spec fn key_text(heap: PythonHeap, id: usize) -> Seq<char> {
    match heap.objects@[id as int] {
        PythonObject::Str(Some(text)) => text@,
        _ => Seq::empty(),
    }
}

/// Whether the containers of an object are nested no deeper than `height`.
pub open spec fn finite_within(heap: PythonHeap, id: usize, height: nat) -> bool
    decreases height,
{
    let object = heap.objects@[id as int];
    if let Some(items) = sequence_items(object) {
        height > 0 && forall|i: int|
            0 <= i < items.len() ==> finite_within(heap, #[trigger] items[i], (height - 1) as nat)
    } else if let Some(entries) = dict_entries(object) {
        height > 0 && forall|i: int|
            0 <= i < entries.len() ==> finite_within(
                heap,
                (#[trigger] entries[i]).1,
                (height - 1) as nat,
            )
    } else {
        true
    }
}

/// Whether an object is nested to some depth, so that no container holds itself.
pub open spec fn is_finite(heap: PythonHeap, id: usize) -> bool {
    exists|height: nat| finite_within(heap, id, height)
}

/// The tree of an object whose containers are nested no deeper than `height`. What
/// is not a value of JSON counts as null.
pub open spec fn tree_within(heap: PythonHeap, id: usize, height: nat) -> Json
    decreases height,
{
    let object = heap.objects@[id as int];
    if let Some(items) = sequence_items(object) {
        Json::Array(
            Seq::new(
                items.len(),
                |i: int|
                    if height > 0 {
                        tree_within(heap, items[i], (height - 1) as nat)
                    } else {
                        Json::Null
                    },
            ),
        )
    } else if let Some(entries) = dict_entries(object) {
        Json::Object(
            Seq::new(
                entries.len(),
                |i: int|
                    (
                        key_text(heap, entries[i].0),
                        if height > 0 {
                            tree_within(heap, entries[i].1, (height - 1) as nat)
                        } else {
                            Json::Null
                        },
                    ),
            ),
        )
    } else {
        match object {
            PythonObject::Bool(b) => Json::Bool(b),
            PythonObject::Int(n) => Json::Number(Num::Int(n@)),
            PythonObject::Float(f) => if f.spec_is_finite() {
                Json::Number(Num::Float(f))
            } else {
                Json::Null
            },
            PythonObject::Str(Some(text)) => Json::Str(text@),
            _ => Json::Null,
        }
    }
}

/// The tree of an object that no container of its own holds.
pub open spec fn python_tree(heap: PythonHeap, id: usize) -> Json {
    tree_within(heap, id, choose|height: nat| finite_within(heap, id, height))
}

/// The tree does not depend on the bound on the depth.
pub proof fn tree_within_any(heap: PythonHeap, id: usize, low: nat, high: nat)
    requires
        finite_within(heap, id, low),
        finite_within(heap, id, high),
    ensures
        tree_within(heap, id, low) == tree_within(heap, id, high),
    decreases low,
{
    let object = heap.objects@[id as int];
    let (a, b) = (tree_within(heap, id, low), tree_within(heap, id, high));
    if let Some(items) = sequence_items(object) {
        assert forall|i: int| 0 <= i < items.len() implies a->Array_0[i] == b->Array_0[i] by {
            assert(finite_within(heap, items[i], (low - 1) as nat));
            tree_within_any(heap, items[i], (low - 1) as nat, (high - 1) as nat);
        }
        assert(a->Array_0 =~= b->Array_0);
    } else if let Some(entries) = dict_entries(object) {
        assert forall|i: int| 0 <= i < entries.len() implies a->Object_0[i] == b->Object_0[i] by {
            assert(finite_within(heap, entries[i].1, (low - 1) as nat));
            tree_within_any(heap, entries[i].1, (low - 1) as nat, (high - 1) as nat);
        }
        assert(a->Object_0 =~= b->Object_0);
    }
}

/// Within any sufficient bound, the tree is the tree of the object.
pub proof fn tree_is_python_tree(heap: PythonHeap, id: usize, height: nat)
    requires
        finite_within(heap, id, height),
    ensures
        tree_within(heap, id, height) == python_tree(heap, id),
{
    let other = choose|height: nat| finite_within(heap, id, height);
    tree_within_any(heap, id, height, other);
}

proof fn lemma_json_is_finite_within(heap: PythonHeap, id: usize, height: nat)
    requires
        json_within(heap, id, height),
    ensures
        finite_within(heap, id, height),
    decreases height,
{
    let object = heap.objects@[id as int];
    if let Some(items) = sequence_items(object) {
        assert forall|i: int| 0 <= i < items.len() implies finite_within(
            heap,
            #[trigger] items[i],
            (height - 1) as nat,
        ) by {
            lemma_json_is_finite_within(heap, items[i], (height - 1) as nat);
        }
    } else if let Some(entries) = dict_entries(object) {
        assert forall|i: int| 0 <= i < entries.len() implies finite_within(
            heap,
            (#[trigger] entries[i]).1,
            (height - 1) as nat,
        ) by {
            lemma_json_is_finite_within(heap, entries[i].1, (height - 1) as nat);
        }
    }
}

/// An object that is a value of JSON is nested to some depth.
pub proof fn json_is_finite(heap: PythonHeap, id: usize)
    requires
        is_json(heap, id),
    ensures
        is_finite(heap, id),
{
    let height = choose|height: nat| json_within(heap, id, height);
    lemma_json_is_finite_within(heap, id, height);
}

/// The tree of a `list` or `tuple` is that of its items.
pub proof fn sequence_tree(heap: PythonHeap, id: usize)
    requires
        is_finite(heap, id),
        sequence_items(heap.objects@[id as int]) is Some,
    ensures
        ({
            let items = sequence_items(heap.objects@[id as int])->0;
            &&& forall|i: int| 0 <= i < items.len() ==> is_finite(heap, #[trigger] items[i])
            &&& python_tree(heap, id) == Json::Array(
                Seq::new(items.len(), |i: int| python_tree(heap, items[i])),
            )
        }),
{
    let items = sequence_items(heap.objects@[id as int])->0;
    let height = choose|height: nat| finite_within(heap, id, height);
    let tree = tree_within(heap, id, height);
    assert forall|i: int| 0 <= i < items.len() implies is_finite(heap, #[trigger] items[i])
        && tree->Array_0[i] == python_tree(heap, items[i]) by {
        assert(finite_within(heap, items[i], (height - 1) as nat));
        tree_is_python_tree(heap, items[i], (height - 1) as nat);
    }
    assert(tree->Array_0 =~= Seq::new(items.len(), |i: int| python_tree(heap, items[i])));
}

/// The tree of a `dict` is that of its entries.
pub proof fn dict_tree(heap: PythonHeap, id: usize)
    requires
        is_finite(heap, id),
        dict_entries(heap.objects@[id as int]) is Some,
    ensures
        ({
            let entries = dict_entries(heap.objects@[id as int])->0;
            &&& forall|i: int|
                0 <= i < entries.len() ==> is_finite(heap, (#[trigger] entries[i]).1)
            &&& python_tree(heap, id) == Json::Object(
                Seq::new(
                    entries.len(),
                    |i: int| (key_text(heap, entries[i].0), python_tree(heap, entries[i].1)),
                ),
            )
        }),
{
    let entries = dict_entries(heap.objects@[id as int])->0;
    let height = choose|height: nat| finite_within(heap, id, height);
    let tree = tree_within(heap, id, height);
    assert forall|i: int| 0 <= i < entries.len() implies is_finite(heap, (#[trigger] entries[i]).1)
        && tree->Object_0[i] == (
        key_text(heap, entries[i].0),
        python_tree(heap, entries[i].1),
    ) by {
        assert(finite_within(heap, entries[i].1, (height - 1) as nat));
        tree_is_python_tree(heap, entries[i].1, (height - 1) as nat);
    }
    assert(tree->Object_0 =~= Seq::new(
        entries.len(),
        |i: int| (key_text(heap, entries[i].0), python_tree(heap, entries[i].1)),
    ));
}

/// What a value of JSON holds is a value of JSON.
pub proof fn json_children(heap: PythonHeap, id: usize)
    requires
        is_json(heap, id),
    ensures
        sequence_items(heap.objects@[id as int]) matches Some(items) ==> forall|i: int|
            0 <= i < items.len() ==> is_json(heap, #[trigger] items[i]),
        dict_entries(heap.objects@[id as int]) matches Some(entries) ==> forall|i: int|
            0 <= i < entries.len() ==> is_json(heap, (#[trigger] entries[i]).1),
{
    let height = choose|height: nat| json_within(heap, id, height);
    let object = heap.objects@[id as int];
    if let Some(items) = sequence_items(object) {
        assert forall|i: int| 0 <= i < items.len() implies is_json(heap, #[trigger] items[i]) by {
            assert(json_within(heap, items[i], (height - 1) as nat));
        }
    }
    if let Some(entries) = dict_entries(object) {
        assert forall|i: int| 0 <= i < entries.len() implies is_json(
            heap,
            (#[trigger] entries[i]).1,
        ) by {
            assert(json_within(heap, entries[i].1, (height - 1) as nat));
        }
    }
}

/// A container that holds itself, directly or through others, is not a value of JSON.
pub proof fn self_holding_is_not_json(heap: PythonHeap, id: usize, between: nat)
    requires
        holds(heap, id, id, between),
    ensures
        !is_json(heap, id),
{
    if is_json(heap, id) {
        let height = choose|height: nat| json_within(heap, id, height);
        lemma_no_cycle(heap, id, between, height);
    }
}

/// Whether an object by itself is fit for JSON: a list, a tuple, a dictionary with string
/// keys, or a scalar of JSON.
pub open spec fn is_json_node(heap: PythonHeap, id: usize) -> bool {
    let object = heap.objects@[id as int];
    if sequence_items(object) is Some {
        true
    } else if let Some(entries) = dict_entries(object) {
        forall|i: int|
            0 <= i < entries.len() ==> heap.objects@[(#[trigger] entries[i]).0 as int] is Str
    } else {
        is_json_scalar(object)
    }
}

/// Whether `to` is `from`, or what it holds through any number of containers.
pub open spec fn reaches(heap: PythonHeap, from: usize, to: usize) -> bool {
    from == to || exists|between: nat| holds(heap, from, to, between)
}

/// Whether an object holds itself through any number of containers.
pub open spec fn holds_itself(heap: PythonHeap, id: usize) -> bool {
    exists|between: nat| holds(heap, id, id, between)
}

/// Whether all that an object reaches is fit for JSON by itself, and none of it holds
/// itself.
pub open spec fn reaches_only_json(heap: PythonHeap, id: usize) -> bool {
    forall|to: usize| #[trigger]
        reaches(heap, id, to) ==> is_json_node(heap, to) && !holds_itself(heap, to)
}

/// What a child holds, its parent holds.
proof fn lemma_parent_holds(
    heap: PythonHeap,
    parent: usize,
    child: usize,
    to: usize,
    between: nat,
)
    requires
        is_child(heap, parent, child),
        holds(heap, child, to, between),
    ensures
        holds(heap, parent, to, between + 1),
    decreases between,
{
    if between == 0 {
        assert(holds(heap, parent, child, 0));
    } else {
        let mid = choose|mid: usize|
            holds(heap, child, mid, (between - 1) as nat) && #[trigger] is_child(heap, mid, to);
        lemma_parent_holds(heap, parent, child, mid, (between - 1) as nat);
    }
}

/// A child reaches no more than its parent.
proof fn lemma_child_reaches_only_json(heap: PythonHeap, parent: usize, child: usize)
    requires
        is_child(heap, parent, child),
        reaches_only_json(heap, parent),
    ensures
        reaches_only_json(heap, child),
{
    assert forall|to: usize| #[trigger] reaches(heap, child, to) implies is_json_node(heap, to)
        && !holds_itself(heap, to) by {
        if child == to {
            assert(holds(heap, parent, to, 0));
        } else {
            let between = choose|between: nat| holds(heap, child, to, between);
            lemma_parent_holds(heap, parent, child, to, between);
        }
        assert(reaches(heap, parent, to));
    }
}

/// Objects that do not hold themselves are nested no deeper than there are objects, those
/// left aside that hold them.
proof fn lemma_reaches_only_json_within(heap: PythonHeap, active: Set<usize>, id: usize)
    requires
        heap.wf(),
        id < heap.objects@.len(),
        forall|c: usize| #[trigger] active.contains(c) ==> exists|n: nat| holds(heap, c, id, n),
        reaches_only_json(heap, id),
    ensures
        json_within(heap, id, left_out(active, heap.objects@.len()) + 1),
    decreases left_out(active, heap.objects@.len()),
{
    let bound = heap.objects@.len();
    let object = heap.objects@[id as int];
    let inner = active.insert(id);
    assert(bound == heap.objects.len());
    assert(reaches(heap, id, id));
    assert(references_below(heap.objects@[id as int], bound));
    assert(!active.contains(id));
    lemma_left_out_insert(active, id, bound);
    if let Some(items) = sequence_items(object) {
        assert forall|i: int| 0 <= i < items.len() implies json_within(
            heap,
            #[trigger] items[i],
            left_out(active, bound),
        ) by {
            assert(is_child(heap, id, items[i]));
            lemma_active_hold_children(heap, active, id, items[i]);
            lemma_child_reaches_only_json(heap, id, items[i]);
            lemma_reaches_only_json_within(heap, inner, items[i]);
        }
    } else if let Some(entries) = dict_entries(object) {
        assert forall|i: int| 0 <= i < entries.len() implies json_within(
            heap,
            (#[trigger] entries[i]).1,
            left_out(active, bound),
        ) by {
            assert(is_child(heap, id, entries[i].1));
            lemma_active_hold_children(heap, active, id, entries[i].1);
            lemma_child_reaches_only_json(heap, id, entries[i].1);
            lemma_reaches_only_json_within(heap, inner, entries[i].1);
        }
    }
}

/// An object is a value of JSON exactly where all that it reaches is a scalar of JSON, a
/// list, a tuple, or a dictionary with string keys, and none of it holds itself.
pub proof fn json_is_what_reaches_only_json(heap: PythonHeap, id: usize)
    requires
        heap.wf(),
        id < heap.objects@.len(),
    ensures
        is_json(heap, id) == reaches_only_json(heap, id),
{
    if is_json(heap, id) {
        let height = choose|height: nat| json_within(heap, id, height);
        assert forall|to: usize| #[trigger] reaches(heap, id, to) implies is_json_node(heap, to)
            && !holds_itself(heap, to) by {
            if id != to {
                let between = choose|between: nat| holds(heap, id, to, between);
                lemma_held_within(heap, id, to, between, height);
            }
            if holds_itself(heap, to) {
                let between = choose|between: nat| holds(heap, to, to, between);
                self_holding_is_not_json(heap, to, between);
            }
        }
    }
    if reaches_only_json(heap, id) {
        lemma_reaches_only_json_within(heap, Set::empty(), id);
    }
}

} // verus!
