//! Python objects, read into a graph of plain values.
//!
//! What a Python object holds can change between two looks at it. What is stated of a
//! look is therefore no more than that it gave this answer of this object.

use crate::float64::Float64;
use crate::integer::{integer_in, BigInteger, Sign};
use crate::python::PythonHeap;
use crate::python_snapshot::{first_place, place_is_described, place_of, PythonReply};
use pyo3::prelude::{PyAny, PyAnyMethods};
use pyo3::types::{
    PyBool, PyBoolMethods, PyDict, PyDictMethods, PyFloat, PyFloatMethods, PyInt, PyList,
    PyListMethods, PyString, PyStringMethods, PyTuple, PyTupleMethods,
};
use pyo3::Bound;
use std::collections::HashSet;
use vstd::prelude::*;

verus! {

broadcast use vstd::std_specs::hash::group_hash_axioms;

/// `pyo3::Bound`, a reference to a Python object while its interpreter is held.
#[verifier::external_type_specification]
#[verifier::external_body]
#[verifier::reject_recursive_types(T)]
pub struct ExBound<'py, T>(Bound<'py, T>);

/// `pyo3::PyAny`, a Python object of any type.
#[verifier::external_type_specification]
#[verifier::external_body]
pub struct ExPyAny(PyAny);

/// Whether a look at an object has said that it is, or is not, `None`.
pub uninterp spec fn look_none(object: Bound<'_, PyAny>, none: bool) -> bool;

/// Whether a look at an object has given this truth value of a `bool`.
pub uninterp spec fn look_bool(object: Bound<'_, PyAny>, boolean: Option<bool>) -> bool;

/// Whether a look at an object has given this text of a `str`.
pub uninterp spec fn look_text(object: Bound<'_, PyAny>, text: Option<Option<Seq<char>>>) -> bool;

/// Whether a look at an object has given this value of an `int`.
pub uninterp spec fn look_integer(object: Bound<'_, PyAny>, integer: Option<int>) -> bool;

/// Whether a look at an object has given this value of a `float`.
pub uninterp spec fn look_float(object: Bound<'_, PyAny>, float: Option<Float64>) -> bool;

/// Whether a look at an object has given these items of a `list`.
pub uninterp spec fn look_list(
    object: Bound<'_, PyAny>,
    items: Option<Seq<Bound<'_, PyAny>>>,
) -> bool;

/// Whether a look at an object has given these items of a `tuple`.
pub uninterp spec fn look_tuple(
    object: Bound<'_, PyAny>,
    items: Option<Seq<Bound<'_, PyAny>>>,
) -> bool;

/// Whether a look at an object has given these keys and values of a `dict`.
pub uninterp spec fn look_dict(
    object: Bound<'_, PyAny>,
    entries: Option<Seq<(Bound<'_, PyAny>, Bound<'_, PyAny>)>>,
) -> bool;

/// Whether a look at an object has given this address.
pub uninterp spec fn look_address(object: Bound<'_, PyAny>, address: usize) -> bool;

/// The text in what a look for a `str` gives.
pub open spec fn text_in(text: Option<Option<String>>) -> Option<Option<Seq<char>>> {
    match text {
        Some(Some(text)) => Some(Some(text@)),
        Some(None) => Some(None),
        None => None,
    }
}

/// The objects in what a look for a container gives.
pub open spec fn parts_in<T>(parts: Option<Vec<T>>) -> Option<Seq<T>> {
    match parts {
        Some(parts) => Some(parts@),
        None => None,
    }
}

/// `PyAnyMethods::is_none`: trusted to have given its answer of this object. Another
/// look may give another answer.
#[verifier::external_body]
fn object_is_none(object: &Bound<'_, PyAny>) -> (none: bool)
    ensures
        look_none(*object, none),
{
    object.is_none()
}

/// `PyBoolMethods::is_true`, where the object is a `bool`: trusted to have given its
/// answer of this object.
#[verifier::external_body]
fn object_bool(object: &Bound<'_, PyAny>) -> (boolean: Option<bool>)
    ensures
        look_bool(*object, boolean),
{
    object.cast::<PyBool>().ok().map(|value| value.is_true())
}

/// `PyStringMethods::to_str`, where the object is a `str`: trusted to have given its
/// answer of this object.
#[verifier::external_body]
fn object_text(object: &Bound<'_, PyAny>) -> (text: Option<Option<String>>)
    ensures
        look_text(*object, text_in(text)),
{
    object.cast::<PyString>().ok().map(|value| value.to_str().ok().map(|text| text.to_owned()))
}

/// The conversion of an `int` to a `num_bigint::BigInt`, as a sign and digits, where
/// the object is an `int`: trusted to have given its answer of this object.
#[verifier::external_body]
fn object_integer(object: &Bound<'_, PyAny>) -> (integer: Option<BigInteger>)
    ensures
        look_integer(*object, integer_in(integer)),
{
    let value = object.cast::<PyInt>().ok()?.extract::<num_bigint::BigInt>().ok()?;
    let (sign, magnitude) = value.to_u32_digits();
    let sign = match sign {
        num_bigint::Sign::Minus => Sign::Minus,
        num_bigint::Sign::NoSign => Sign::Plus,
        num_bigint::Sign::Plus => Sign::Plus,
    };
    Some(BigInteger { sign, magnitude })
}

/// `PyFloatMethods::value`, as a bit pattern, where the object is a `float`: trusted to
/// have given its answer of this object.
#[verifier::external_body]
fn object_float(object: &Bound<'_, PyAny>) -> (float: Option<Float64>)
    ensures
        look_float(*object, float),
{
    object.cast::<PyFloat>().ok().map(|value| Float64 { bits: value.value().to_bits() })
}

/// `PyListMethods::iter`, where the object is a `list`: trusted to have given these
/// items of this object. Another look may give others.
#[verifier::external_body]
fn object_list<'py>(object: &Bound<'py, PyAny>) -> (items: Option<Vec<Bound<'py, PyAny>>>)
    ensures
        look_list(*object, parts_in(items)),
{
    object.cast::<PyList>().ok().map(|value| value.iter().collect())
}

/// `PyTupleMethods::iter`, where the object is a `tuple`: trusted to have given these
/// items of this object.
#[verifier::external_body]
fn object_tuple<'py>(object: &Bound<'py, PyAny>) -> (items: Option<Vec<Bound<'py, PyAny>>>)
    ensures
        look_tuple(*object, parts_in(items)),
{
    object.cast::<PyTuple>().ok().map(|value| value.iter().collect())
}

/// `PyDictMethods::items`, as pairs, where the object is a `dict`: trusted to have given
/// these keys and values of this object. Another look may give others.
#[verifier::external_body]
fn object_dict<'py>(object: &Bound<'py, PyAny>) -> (entries: Option<
    Vec<(Bound<'py, PyAny>, Bound<'py, PyAny>)>,
>)
    ensures
        look_dict(*object, parts_in(entries)),
{
    object.cast::<PyDict>().ok()?.items().iter().map(|pair| pair.extract().ok()).collect()
}

/// `Bound::as_ptr`: trusted to have given this address of this object.
#[verifier::external_body]
fn object_address(object: &Bound<'_, PyAny>) -> (address: usize)
    ensures
        look_address(*object, address),
{
    object.as_ptr() as usize
}

/// Whether a look for a container gave parts that have these addresses.
pub open spec fn items_looked<'py>(
    items: Option<Seq<Bound<'py, PyAny>>>,
    addresses: Option<Vec<usize>>,
) -> bool {
    match (items, addresses) {
        (Some(items), Some(addresses)) => addresses@.len() == items.len() && forall|i: int|
            0 <= i < items.len() ==> look_address(#[trigger] items[i], addresses@[i]),
        (None, None) => true,
        _ => false,
    }
}

/// Whether a look for a `dict` gave keys and values that have these addresses.
pub open spec fn entries_looked<'py>(
    entries: Option<Seq<(Bound<'py, PyAny>, Bound<'py, PyAny>)>>,
    addresses: Option<Vec<(usize, usize)>>,
) -> bool {
    match (entries, addresses) {
        (Some(entries), Some(addresses)) => addresses@.len() == entries.len() && forall|i: int|
            0 <= i < entries.len() ==> look_address((#[trigger] entries[i]).0, addresses@[i].0)
                && look_address(entries[i].1, addresses@[i].1),
        (None, None) => true,
        _ => false,
    }
}

/// Whether a description says of an object what looks at that object gave.
pub open spec fn reply_looked<'py>(object: Bound<'py, PyAny>, reply: PythonReply) -> bool {
    &&& look_address(object, reply.address)
    &&& look_none(object, reply.none)
    &&& look_bool(object, reply.boolean)
    &&& look_text(object, text_in(reply.text))
    &&& look_integer(object, integer_in(reply.integer))
    &&& look_float(object, reply.float)
    &&& exists|items: Option<Seq<Bound<'py, PyAny>>>| #[trigger]
        look_list(object, items) && items_looked(items, reply.list)
    &&& exists|items: Option<Seq<Bound<'py, PyAny>>>| #[trigger]
        look_tuple(object, items) && items_looked(items, reply.tuple)
    &&& exists|entries: Option<Seq<(Bound<'py, PyAny>, Bound<'py, PyAny>)>>| #[trigger]
        look_dict(object, entries) && entries_looked(entries, reply.dict)
}

/// Whether a look at a container gave an object as one of its parts.
pub open spec fn part_looked<'py>(whole: Bound<'py, PyAny>, part: Bound<'py, PyAny>) -> bool {
    ||| exists|items: Seq<Bound<'py, PyAny>>| #[trigger]
        look_list(whole, Some(items)) && items.contains(part)
    ||| exists|items: Seq<Bound<'py, PyAny>>| #[trigger]
        look_tuple(whole, Some(items)) && items.contains(part)
    ||| exists|entries: Seq<(Bound<'py, PyAny>, Bound<'py, PyAny>)>| #[trigger]
        look_dict(whole, Some(entries)) && has_part(entries, part)
}

/// Whether an object is one of some keys and values.
pub open spec fn has_part<'py>(
    entries: Seq<(Bound<'py, PyAny>, Bound<'py, PyAny>)>,
    part: Bound<'py, PyAny>,
) -> bool {
    exists|i: int|
        0 <= i < entries.len() && ((#[trigger] entries[i]).0 == part || entries[i].1 == part)
}

/// Whether descriptions say of objects what looks at each of them gave, and each object
/// but the first is one that a look at an earlier one gave.
pub open spec fn looked<'py>(objects: Seq<Bound<'py, PyAny>>, replies: Seq<PythonReply>) -> bool {
    &&& objects.len() == replies.len()
    &&& forall|k: int|
        0 <= k < replies.len() ==> reply_looked(objects[k], #[trigger] replies[k])
    &&& forall|k: int| 0 < k < objects.len() ==> #[trigger] found_before(objects, k)
}

/// Whether a look at an object before a place gave the object at that place.
pub open spec fn found_before<'py>(objects: Seq<Bound<'py, PyAny>>, k: int) -> bool {
    exists|j: int| 0 <= j < k && #[trigger] part_looked(objects[j], objects[k])
}

/// Whether a graph is what looks at an object and at its parts, and at theirs, make, with
/// the object at the given place in it.
pub open spec fn is_captured<'py>(root: Bound<'py, PyAny>, heap: PythonHeap, id: usize) -> bool {
    exists|objects: Seq<Bound<'py, PyAny>>, replies: Seq<PythonReply>|
        {
            &&& #[trigger] looked(objects, replies)
            &&& objects.len() > 0
            &&& objects[0] == root
            &&& heap.is_made_of(replies)
            &&& place_of(replies, replies[0].address) == Some(id)
        }
}

/// The objects of a list of objects with their addresses.
spec fn objects_of<'py>(pending: Seq<(usize, Bound<'py, PyAny>)>) -> Seq<Bound<'py, PyAny>> {
    Seq::new(pending.len(), |i: int| pending[i].1)
}

/// Whether each address of a set is that of an object to be described, and each of those
/// objects is noted with its address.
spec fn all_pending<'py>(pending: Seq<(usize, Bound<'py, PyAny>)>, seen: Set<usize>) -> bool {
    &&& forall|a: usize| #[trigger]
        seen.contains(a) ==> exists|j: int| 0 <= j < pending.len() && (#[trigger] pending[j]).0 == a
    &&& forall|j: int|
        0 <= j < pending.len() ==> look_address((#[trigger] pending[j]).1, pending[j].0)
}

/// Whether the addresses of all parts are in a set.
spec fn parts_seen(reply: PythonReply, seen: Set<usize>) -> bool {
    &&& reply.list matches Some(items) ==> forall|i: int|
        0 <= i < items@.len() ==> seen.contains(#[trigger] items@[i])
    &&& reply.tuple matches Some(items) ==> forall|i: int|
        0 <= i < items@.len() ==> seen.contains(#[trigger] items@[i])
    &&& reply.dict matches Some(entries) ==> forall|i: int|
        0 <= i < entries@.len() ==> seen.contains((#[trigger] entries@[i]).0) && seen.contains(
            entries@[i].1,
        )
}

/// Whether a list begins with another.
spec fn extends<T>(before: Seq<T>, after: Seq<T>) -> bool {
    before.len() <= after.len() && forall|i: int|
        0 <= i < before.len() ==> #[trigger] after[i] == before[i]
}

/// Notes that an object is to be described, unless that was noted before.
fn enqueue<'py>(
    address: usize,
    object: Bound<'py, PyAny>,
    pending: &mut Vec<(usize, Bound<'py, PyAny>)>,
    seen: &mut HashSet<usize>,
)
    requires
        all_pending(old(pending)@, old(seen)@),
        look_address(object, address),
    ensures
        all_pending(final(pending)@, final(seen)@),
        final(seen)@ == old(seen)@.insert(address),
        final(pending)@ == if old(seen)@.contains(address) {
            old(pending)@
        } else {
            old(pending)@.push((address, object))
        },
{
    let ghost before = pending@;
    if seen.insert(address) {
        pending.push((address, object));
        proof {
            assert(pending@[before.len() as int].0 == address);
            assert forall|a: usize| #[trigger] seen@.contains(a) implies exists|j: int|
                0 <= j < pending@.len() && (#[trigger] pending@[j]).0 == a by {
                if a != address {
                    let j = choose|j: int| 0 <= j < before.len() && (#[trigger] before[j]).0 == a;
                    assert(pending@[j] == before[j]);
                }
            }
            assert forall|j: int| 0 <= j < pending@.len() implies look_address(
                (#[trigger] pending@[j]).1,
                pending@[j].0,
            ) by {
                if j < before.len() {
                    assert(pending@[j] == before[j]);
                }
            }
        }
    } else {
        assert(seen@ =~= old(seen)@);
    }
}

/// Notes that the items of a container are to be described, and gives their addresses.
fn enqueue_items<'py>(
    items: Vec<Bound<'py, PyAny>>,
    pending: &mut Vec<(usize, Bound<'py, PyAny>)>,
    seen: &mut HashSet<usize>,
) -> (addresses: Vec<usize>)
    requires
        all_pending(old(pending)@, old(seen)@),
    ensures
        all_pending(final(pending)@, final(seen)@),
        old(seen)@.subset_of(final(seen)@),
        extends(old(pending)@, final(pending)@),
        forall|j: int|
            old(pending)@.len() <= j < final(pending)@.len() ==> items@.contains(
                (#[trigger] final(pending)@[j]).1,
            ),
        items_looked(Some(items@), Some(addresses)),
        forall|i: int|
            0 <= i < addresses@.len() ==> final(seen)@.contains(#[trigger] addresses@[i]),
{
    let ghost before = pending@;
    let ghost known = seen@;
    let ghost all = items@;
    let mut items = items;
    let mut addresses: Vec<usize> = Vec::new();
    let mut i: usize = 0;
    while i < items.len()
        invariant
            i <= items.len(),
            items@ == all,
            addresses.len() == i,
            forall|k: int| 0 <= k < i ==> look_address(#[trigger] all[k], addresses@[k]),
        decreases items.len() - i,
    {
        addresses.push(object_address(&items[i]));
        i += 1;
    }
    assert(items@ =~= all.take(items@.len() as int));
    while items.len() > 0
        invariant
            items.len() <= addresses.len(),
            addresses.len() == all.len(),
            items@ == all.take(items@.len() as int),
            forall|k: int| 0 <= k < all.len() ==> look_address(#[trigger] all[k], addresses@[k]),
            all_pending(pending@, seen@),
            known.subset_of(seen@),
            extends(before, pending@),
            forall|j: int|
                before.len() <= j < pending@.len() ==> all.contains((#[trigger] pending@[j]).1),
            forall|k: int|
                items.len() <= k < addresses@.len() ==> seen@.contains(#[trigger] addresses@[k]),
        decreases items.len(),
    {
        let ghost last = items@.len() - 1;
        assert(items@[last] == all[last]);
        let item = items.pop().unwrap();
        assert(items@ =~= all.take(last));
        assert(all.contains(item));
        enqueue(addresses[items.len()], item, pending, seen);
    }
    addresses
}

/// Notes that the keys and values of a container are to be described, and gives their
/// addresses.
fn enqueue_entries<'py>(
    entries: Vec<(Bound<'py, PyAny>, Bound<'py, PyAny>)>,
    pending: &mut Vec<(usize, Bound<'py, PyAny>)>,
    seen: &mut HashSet<usize>,
) -> (addresses: Vec<(usize, usize)>)
    requires
        all_pending(old(pending)@, old(seen)@),
    ensures
        all_pending(final(pending)@, final(seen)@),
        old(seen)@.subset_of(final(seen)@),
        extends(old(pending)@, final(pending)@),
        forall|j: int|
            old(pending)@.len() <= j < final(pending)@.len() ==> has_part(
                entries@,
                (#[trigger] final(pending)@[j]).1,
            ),
        entries_looked(Some(entries@), Some(addresses)),
        forall|i: int|
            0 <= i < addresses@.len() ==> final(seen)@.contains((#[trigger] addresses@[i]).0)
                && final(seen)@.contains(addresses@[i].1),
{
    let ghost before = pending@;
    let ghost known = seen@;
    let ghost all = entries@;
    let mut entries = entries;
    let mut addresses: Vec<(usize, usize)> = Vec::new();
    let mut i: usize = 0;
    while i < entries.len()
        invariant
            i <= entries.len(),
            entries@ == all,
            addresses.len() == i,
            forall|k: int|
                0 <= k < i ==> look_address((#[trigger] all[k]).0, addresses@[k].0)
                    && look_address(all[k].1, addresses@[k].1),
        decreases entries.len() - i,
    {
        addresses.push((object_address(&entries[i].0), object_address(&entries[i].1)));
        i += 1;
    }
    assert(entries@ =~= all.take(entries@.len() as int));
    while entries.len() > 0
        invariant
            entries.len() <= addresses.len(),
            addresses.len() == all.len(),
            entries@ == all.take(entries@.len() as int),
            forall|k: int|
                0 <= k < all.len() ==> look_address((#[trigger] all[k]).0, addresses@[k].0)
                    && look_address(all[k].1, addresses@[k].1),
            all_pending(pending@, seen@),
            known.subset_of(seen@),
            extends(before, pending@),
            forall|j: int|
                before.len() <= j < pending@.len() ==> has_part(all, (#[trigger] pending@[j]).1),
            forall|k: int|
                entries.len() <= k < addresses@.len() ==> seen@.contains(
                    (#[trigger] addresses@[k]).0,
                ) && seen@.contains(addresses@[k].1),
        decreases entries.len(),
    {
        let ghost last = entries@.len() - 1;
        assert(entries@[last] == all[last]);
        let (key, value) = entries.pop().unwrap();
        assert(entries@ =~= all.take(last));
        assert(all[last] == (key, value));
        assert(has_part(all, key) && has_part(all, value));
        let (key_address, value_address) = addresses[entries.len()];
        enqueue(key_address, key, pending, seen);
        enqueue(value_address, value, pending, seen);
    }
    addresses
}

impl PythonHeap {
    /// The graph of a Python object and all that it holds, directly or through others,
    /// as looks at each of them give it, and the object in it, which is the first.
    pub fn capture<'py>(root: Bound<'py, PyAny>) -> (made: (PythonHeap, usize))
        ensures
            made.0.wf(),
            made.1 == 0,
            made.0.objects@.len() > 0,
            is_captured(root, made.0, made.1),
    {
        let ghost first = root;
        let root_address: usize = object_address(&root);
        let mut pending: Vec<(usize, Bound<'py, PyAny>)> = Vec::new();
        let mut seen: HashSet<usize> = HashSet::new();
        let mut replies: Vec<PythonReply> = Vec::new();
        enqueue(root_address, root, &mut pending, &mut seen);
        let mut next: usize = 0;
        while next < pending.len()
            invariant
                next <= pending.len(),
                pending.len() > 0,
                pending@[0] == (root_address, first),
                replies.len() == next,
                all_pending(pending@, seen@),
                seen@.contains(root_address),
                forall|k: int| 0 <= k < next ==> (#[trigger] replies@[k]).address == pending@[k].0,
                forall|k: int| 0 <= k < next ==> parts_seen(#[trigger] replies@[k], seen@),
                forall|k: int|
                    0 <= k < next ==> reply_looked(pending@[k].1, #[trigger] replies@[k]),
                forall|k: int|
                    0 < k < pending@.len() ==> #[trigger] found_before(objects_of(pending@), k),
            decreases usize::MAX - next,
        {
            let ghost object = pending@[next as int].1;
            let address: usize = pending[next].0;
            let none = object_is_none(&pending[next].1);
            let boolean = object_bool(&pending[next].1);
            let text = object_text(&pending[next].1);
            let integer = object_integer(&pending[next].1);
            let float = object_float(&pending[next].1);
            let list = object_list(&pending[next].1);
            let tuple = object_tuple(&pending[next].1);
            let dict = object_dict(&pending[next].1);
            let ghost (in_list, in_tuple, in_dict) = (
                parts_in(list),
                parts_in(tuple),
                parts_in(dict),
            );
            let ghost before = pending@;
            let ghost known = seen@;
            let list = match list {
                Some(items) => Some(enqueue_items(items, &mut pending, &mut seen)),
                None => None,
            };
            let ghost second = pending@;
            let tuple = match tuple {
                Some(items) => Some(enqueue_items(items, &mut pending, &mut seen)),
                None => None,
            };
            let ghost third = pending@;
            let dict = match dict {
                Some(entries) => Some(enqueue_entries(entries, &mut pending, &mut seen)),
                None => None,
            };
            let ghost fourth = pending@;
            let reply = PythonReply {
                address,
                none,
                boolean,
                text,
                integer,
                float,
                list,
                tuple,
                dict,
            };
            proof {
                assert(known.subset_of(seen@));
                assert(extends(before, fourth));
                assert(look_list(object, in_list) && items_looked(in_list, reply.list));
                assert(look_tuple(object, in_tuple) && items_looked(in_tuple, reply.tuple));
                assert(look_dict(object, in_dict) && entries_looked(in_dict, reply.dict));
                assert(reply_looked(object, reply));
                assert forall|k: int| 0 < k < fourth.len() implies #[trigger] found_before(
                    objects_of(fourth),
                    k,
                ) by {
                    let objects = objects_of(fourth);
                    if k < before.len() {
                        assert(found_before(objects_of(before), k));
                        let j = choose|j: int|
                            0 <= j < k && #[trigger] part_looked(
                                objects_of(before)[j],
                                objects_of(before)[k],
                            );
                        assert(before[j] == fourth[j] && before[k] == fourth[k]);
                        assert(part_looked(objects[j], objects[k]));
                    } else {
                        assert(before[next as int] == fourth[next as int]);
                        assert(objects[next as int] == object);
                        if k < second.len() {
                            assert(second[k] == fourth[k]);
                            assert(look_list(object, Some(in_list->0)));
                        } else if k < third.len() {
                            assert(third[k] == fourth[k]);
                            assert(look_tuple(object, Some(in_tuple->0)));
                        } else {
                            assert(look_dict(object, Some(in_dict->0)));
                        }
                        assert(part_looked(objects[next as int], objects[k]));
                    }
                }
            }
            replies.push(reply);
            next += 1;
        }
        proof {
            assert forall|a: usize| #[trigger] seen@.contains(a) implies place_of(
                replies@,
                a,
            ) is Some by {
                let j = choose|j: int| 0 <= j < pending@.len() && (#[trigger] pending@[j]).0 == a;
                assert(replies@[j].address == a);
                place_is_described(replies@, a, replies@.len());
            }
            assert forall|k: int| 0 <= k < replies@.len() implies (
            #[trigger] replies@[k]).parts_placed(replies@) by {
                assert(parts_seen(replies@[k], seen@));
            }
            first_place(replies@, replies@.len());
            assert(looked(objects_of(pending@), replies@));
        }
        PythonHeap::from_snapshot(&replies, root_address).unwrap()
    }
}

} // verus!
