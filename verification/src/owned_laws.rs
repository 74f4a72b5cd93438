//! Laws of owned values: what is kept of a value, and which values have none.

use crate::float64::{nearest, scale_unit, Float64};
use crate::instance::{InstanceRef, InstanceRepr};
use crate::materialize::{last_lookup, last_member_stays};
use crate::owned::{ownable, owned_members, owned_tree};
use crate::rounding::{distance, infinite_is_too_large, nearest_is_nearest};
use crate::value::{collected, keys_ascending, lookup, Json, Num, OwnedValue};
use vstd::prelude::*;

verus! {

/// An owned value is made of a view exactly where one can be, the two ways to make one agree, and
/// an owned value is always its own.
pub proof fn an_owned_value_is_made_where_there_is_one(
    view: InstanceRef<'_>,
    owned: OwnedValue,
    tried: Option<OwnedValue>,
)
    requires
        call_ensures(InstanceRef::to_owned, (view,), owned),
        call_ensures(InstanceRef::try_to_owned, (view,), tried),
    ensures
        tried is Some <==> view.repr is Serde || ownable(view.tree()),
        tried is Some ==> tried->0@ == owned@,
        view.repr matches InstanceRepr::Serde(value) ==> owned@ == value@,
        !(view.repr is Serde) ==> owned@ == owned_tree(view.tree()),
{
}

/// Null, booleans, texts, floats and integers of 64 bits are kept as they are.
pub proof fn scalars_are_kept(tree: Json)
    requires
        match tree {
            Json::Null => true,
            Json::Bool(_) => true,
            Json::Str(_) => true,
            Json::Number(Num::Int(n)) => i64::MIN <= n <= u64::MAX,
            Json::Number(Num::Float(f)) => f.spec_is_finite(),
            _ => false,
        },
    ensures
        ownable(tree),
        owned_tree(tree) == tree,
{
}

/// An integer of more than 64 bits is kept as a finite float to which no other is nearer, and has
/// no owned value where it lies beyond every finite float.
pub proof fn a_large_integer_is_kept_as_the_nearest_float(n: int, other: Float64)
    requires
        n < i64::MIN || n > u64::MAX,
        other.spec_is_finite(),
    ensures
        ownable(Json::Number(Num::Int(n))) ==> (owned_tree(
            Json::Number(Num::Int(n)),
        ) matches Json::Number(Num::Float(f)) && f.spec_is_finite() && distance(
            f.spec_scaled(),
            n * scale_unit(),
        ) <= distance(other.spec_scaled(), n * scale_unit())),
        !ownable(Json::Number(Num::Int(n))) ==> (n > 0 ==> other.spec_scaled() < n * scale_unit())
            && (n < 0 ==> n * scale_unit() < other.spec_scaled()),
{
    if nearest(n).spec_is_finite() {
        nearest_is_nearest(n, other);
    } else {
        infinite_is_too_large(n, other);
    }
}

/// A float that is not finite has no owned value.
pub proof fn a_float_that_is_not_finite_has_no_owned_value(f: Float64)
    ensures
        ownable(Json::Number(Num::Float(f))) <==> f.spec_is_finite(),
{
}

/// An array has an owned value exactly where each of its items has one, and has the owned values
/// of its items in their order.
pub proof fn an_array_is_kept_item_by_item(items: Seq<Json>, i: int)
    requires
        0 <= i < items.len(),
    ensures
        ownable(Json::Array(items)) ==> ownable(items[i]),
        (forall|k: int| 0 <= k < items.len() ==> ownable(#[trigger] items[k])) ==> ownable(
            Json::Array(items),
        ),
        owned_tree(Json::Array(items)) is Array,
        owned_tree(Json::Array(items))->Array_0.len() == items.len(),
        owned_tree(Json::Array(items))->Array_0[i] == owned_tree(items[i]),
{
    let tree = Json::Array(items);
    assert(tree->Array_0 == items);
}

/// An empty array is kept as it is.
pub proof fn an_empty_array_is_kept()
    ensures
        ownable(Json::Array(Seq::empty())),
        owned_tree(Json::Array(Seq::empty())) == Json::Array(Seq::empty()),
{
    let tree = Json::Array(Seq::empty());
    assert(owned_tree(tree)->Array_0 =~= Seq::empty());
}

/// The last member with a key is found from the end.
proof fn lemma_last_lookup<V>(members: Seq<(Seq<char>, V)>, k: int)
    requires
        0 <= k < members.len(),
        forall|j: int| k < j < members.len() ==> (#[trigger] members[j]).0 != members[k].0,
    ensures
        last_lookup(members, members[k].0) == Some(members[k].1),
    decreases members.len(),
{
    if k < members.len() - 1 {
        assert(members[members.len() - 1].0 != members[k].0);
        lemma_last_lookup(members.drop_last(), k);
    }
}

/// A key that no member has is not found from the end.
proof fn lemma_last_lookup_absent<V>(members: Seq<(Seq<char>, V)>, key: Seq<char>)
    requires
        forall|j: int| 0 <= j < members.len() ==> (#[trigger] members[j]).0 != key,
    ensures
        last_lookup(members, key) is None,
    decreases members.len(),
{
    if members.len() > 0 {
        assert(members[members.len() - 1].0 != key);
        let rest = members.drop_last();
        assert forall|j: int| 0 <= j < rest.len() implies (#[trigger] rest[j]).0 != key by {
            assert(rest[j] == members[j]);
        }
        lemma_last_lookup_absent(rest, key);
    }
}

/// An object has an owned value exactly where the values of all its members have one. Under a key
/// it then has the owned value of the last member with that key, and under a key that no member
/// has it has nothing.
pub proof fn an_object_is_kept_by_its_last_members(
    members: Seq<(Seq<char>, Json)>,
    k: int,
    key: Seq<char>,
)
    requires
        0 <= k < members.len(),
        forall|j: int| k < j < members.len() ==> (#[trigger] members[j]).0 != members[k].0,
    ensures
        ownable(Json::Object(members)) <==> forall|i: int|
            0 <= i < members.len() ==> ownable((#[trigger] members[i]).1),
        owned_tree(Json::Object(members)) is Object,
        lookup(owned_tree(Json::Object(members))->Object_0, members[k].0) == Some(
            owned_tree(members[k].1),
        ),
        (forall|j: int| 0 <= j < members.len() ==> (#[trigger] members[j]).0 != key) ==> lookup(
            owned_tree(Json::Object(members))->Object_0,
            key,
        ) is None,
{
    let tree = Json::Object(members);
    assert(tree->Object_0 == members);
    let pairs = owned_members(members);
    assert forall|j: int| k < j < pairs.len() implies (#[trigger] pairs[j]).0 != pairs[k].0 by {
        assert(members[j].0 != members[k].0);
    }
    last_member_stays(pairs, members[k].0);
    lemma_last_lookup(pairs, k);
    if forall|j: int| 0 <= j < members.len() ==> (#[trigger] members[j]).0 != key {
        assert forall|j: int| 0 <= j < pairs.len() implies (#[trigger] pairs[j]).0 != key by {
            assert(members[j].0 != key);
        }
        last_member_stays(pairs, key);
        lemma_last_lookup_absent(pairs, key);
    }
}

/// The keys of an owned object ascend, so that none occurs twice.
pub proof fn the_keys_of_an_owned_object_ascend(
    members: Seq<(Seq<char>, Json)>,
    i: int,
    j: int,
)
    requires
        0 <= i < j < owned_tree(Json::Object(members))->Object_0.len(),
    ensures
        crate::text::text_less(
            owned_tree(Json::Object(members))->Object_0[i].0,
            owned_tree(Json::Object(members))->Object_0[j].0,
        ),
{
    let tree = Json::Object(members);
    assert(tree->Object_0 == members);
    last_member_stays(owned_members(members), Seq::empty());
    let owned = owned_tree(tree)->Object_0;
    assert(owned == collected(owned_members(members)));
    assert(keys_ascending(owned));
}

} // verus!
