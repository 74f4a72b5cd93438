//! Laws of owned values: what they keep of the values that they are made from.

use crate::equality::{
    equality_is_of_trees, equality_is_reflexive, equality_is_symmetric, equality_is_transitive,
    json_equal, keys_unique, lookup_distinct, numbers_defined,
};
use crate::float64::nearest;
use crate::instance::{InstanceRef, InstanceRepr};
use crate::owned::{ownable, owned_members, owned_tree};
use crate::text::{text_less, text_less_irreflexive, text_less_total, text_less_transitive};
use crate::value::{
    array_view, collected, keys_ascending, keys_distinct, lookup, lookup_absent, map_wf,
    object_view, rank, stored, Json, Num, OwnedValue,
};
use vstd::prelude::*;

verus! {

/// The value of the last member with the given key.
pub open spec fn last_lookup<V>(members: Seq<(Seq<char>, V)>, key: Seq<char>) -> Option<V>
    decreases members.len(),
{
    if members.len() == 0 {
        None
    } else if members.last().0 == key {
        Some(members.last().1)
    } else {
        last_lookup(members.drop_last(), key)
    }
}

/// The place of a key in an order: what is before it comes before the key, and nothing
/// from there on does.
proof fn lemma_rank<V>(members: Seq<(Seq<char>, V)>, key: Seq<char>)
    requires
        keys_ascending(members),
    ensures
        rank(members, key) <= members.len(),
        forall|i: int|
            0 <= i < rank(members, key) ==> text_less((#[trigger] members[i]).0, key),
        forall|i: int|
            rank(members, key) <= i < members.len() ==> !text_less((#[trigger] members[i]).0, key),
    decreases members.len(),
{
    if members.len() > 0 {
        let rest = members.drop_first();
        assert(keys_ascending(rest)) by {
            assert forall|i: int, j: int| 0 <= i < j < rest.len() implies text_less(
                #[trigger] rest[i].0,
                #[trigger] rest[j].0,
            ) by {
                assert(text_less(members[i + 1].0, members[j + 1].0));
            }
        }
        if text_less(members[0].0, key) {
            lemma_rank(rest, key);
            assert forall|i: int| 0 <= i < rank(members, key) implies text_less(
                (#[trigger] members[i]).0,
                key,
            ) by {
                if i > 0 {
                    assert(rest[i - 1] == members[i]);
                }
            }
            assert forall|i: int| rank(members, key) <= i < members.len() implies !text_less(
                (#[trigger] members[i]).0,
                key,
            ) by {
                assert(rest[i - 1] == members[i]);
            }
        } else {
            assert forall|i: int| 0 <= i < members.len() implies !text_less(
                (#[trigger] members[i]).0,
                key,
            ) by {
                if i > 0 && text_less(members[i].0, key) {
                    assert(text_less(members[0].0, members[i].0));
                    text_less_transitive(members[0].0, members[i].0, key);
                }
            }
        }
    }
}

/// Keys that ascend are distinct.
pub proof fn ascending_is_distinct<V>(members: Seq<(Seq<char>, V)>)
    requires
        keys_ascending(members),
    ensures
        keys_distinct(members),
{
    assert forall|i: int, j: int| 0 <= i < j < members.len() implies #[trigger] members[i].0
        != #[trigger] members[j].0 by {
        assert(text_less(members[i].0, members[j].0));
        text_less_irreflexive(members[i].0);
    }
}

/// Storing keeps the keys ascending. What is stored is found, and so is what was
/// found before under another key.
pub proof fn stored_is_found<V>(
    members: Seq<(Seq<char>, V)>,
    key: Seq<char>,
    value: V,
    other: Seq<char>,
)
    requires
        keys_ascending(members),
    ensures
        keys_ascending(stored(members, key, value)),
        lookup(stored(members, key, value), other) == if other == key {
            Some(value)
        } else {
            lookup(members, other)
        },
{
    let after = stored(members, key, value);
    let at = rank(members, key) as int;
    lemma_rank(members, key);
    let replaced = at < members.len() && members[at].0 == key;
    if at < members.len() {
        text_less_total(members[at].0, key);
    }
    text_less_irreflexive(key);
    assert forall|i: int, j: int| 0 <= i < j < after.len() implies text_less(
        #[trigger] after[i].0,
        #[trigger] after[j].0,
    ) by {
        if replaced {
            assert(text_less(members[i].0, members[j].0));
        } else {
            let p = if i < at {
                i
            } else {
                i - 1
            };
            let q = if j < at {
                j
            } else {
                j - 1
            };
            if i != at && j != at {
                assert(text_less(members[p].0, members[q].0));
            } else if i == at {
                if q != at {
                    assert(text_less(members[at].0, members[q].0));
                    text_less_transitive(key, members[at].0, members[q].0);
                }
            } else {
                assert(text_less(members[i].0, key));
            }
        }
    }
    ascending_is_distinct(after);
    ascending_is_distinct(members);
    if other == key {
        assert(after[at] == (key, value));
        lookup_distinct(after, at);
    } else if exists|i: int| 0 <= i < members.len() && (#[trigger] members[i]).0 == other {
        let i = choose|i: int| 0 <= i < members.len() && (#[trigger] members[i]).0 == other;
        let j = if replaced || i < at {
            i
        } else {
            i + 1
        };
        assert(after[j] == members[i]);
        lookup_distinct(members, i);
        lookup_distinct(after, j);
    } else {
        lookup_absent(members, other);
        assert forall|j: int| 0 <= j < after.len() implies (#[trigger] after[j]).0 != other by {
            let i = if replaced || j < at {
                j
            } else {
                j - 1
            };
            if j != at {
                assert(after[j] == members[i]);
            }
        }
        lookup_absent(after, other);
    }
}

/// In an object that is collected member by member the keys ascend, and the last
/// member with a key is the one that stays.
pub proof fn last_member_stays<V>(added: Seq<(Seq<char>, V)>, key: Seq<char>)
    ensures
        keys_ascending(collected(added)),
        lookup(collected(added), key) == last_lookup(added, key),
    decreases added.len(),
{
    if added.len() > 0 {
        last_member_stays(added.drop_last(), key);
        stored_is_found(
            collected(added.drop_last()),
            added.last().0,
            added.last().1,
            key,
        );
    }
}

/// Members with distinct keys are all collected.
proof fn lemma_collected_distinct<V>(added: Seq<(Seq<char>, V)>)
    requires
        keys_distinct(added),
    ensures
        collected(added).len() == added.len(),
        forall|i: int|
            0 <= i < collected(added).len() ==> added.contains(#[trigger] collected(added)[i]),
    decreases added.len(),
{
    if added.len() > 0 {
        let rest = added.drop_last();
        let (key, value) = added.last();
        assert(keys_distinct(rest)) by {
            assert forall|i: int, j: int| 0 <= i < j < rest.len() implies #[trigger] rest[i].0
                != #[trigger] rest[j].0 by {
                assert(added[i].0 != added[j].0);
            }
        }
        lemma_collected_distinct(rest);
        last_member_stays(rest, key);
        let before = collected(rest);
        let after = collected(added);
        let at = rank(before, key) as int;
        lemma_rank(before, key);
        assert(!(at < before.len() && before[at].0 == key)) by {
            if at < before.len() && before[at].0 == key {
                let j = choose|j: int| 0 <= j < rest.len() && rest[j] == before[at];
                assert(added[j].0 != added[added.len() - 1].0);
            }
        }
        assert(after == before.insert(at, (key, value)));
        assert forall|i: int| 0 <= i < after.len() implies added.contains(#[trigger] after[i]) by {
            if i == at {
                assert(added[added.len() - 1] == after[i]);
            } else {
                let b = if i < at {
                    i
                } else {
                    i - 1
                };
                assert(after[i] == before[b]);
                let j = choose|j: int| 0 <= j < rest.len() && rest[j] == before[b];
                assert(added[j] == after[i]);
            }
        }
    }
}

/// Members whose keys ascend are collected as they are.
pub proof fn ascending_is_collected<V>(members: Seq<(Seq<char>, V)>)
    requires
        keys_ascending(members),
    ensures
        collected(members) == members,
    decreases members.len(),
{
    if members.len() > 0 {
        let rest = members.drop_last();
        let (key, value) = members.last();
        assert(keys_ascending(rest)) by {
            assert forall|i: int, j: int| 0 <= i < j < rest.len() implies text_less(
                #[trigger] rest[i].0,
                #[trigger] rest[j].0,
            ) by {
                assert(text_less(members[i].0, members[j].0));
            }
        }
        ascending_is_collected(rest);
        lemma_rank(rest, key);
        let at = rank(rest, key) as int;
        assert(at == rest.len()) by {
            if at < rest.len() {
                assert(text_less(members[at].0, members[members.len() - 1].0));
                assert(rest[at] == members[at]);
            }
        }
        assert(rest.insert(at, (key, value)) =~= members);
    } else {
        assert(members =~= Seq::empty());
    }
}

/// Whether every integer in a tree has 64 bits, with or without a sign, or is the value of
/// its nearest float.
pub open spec fn integers_exact(tree: Json) -> bool
    decreases tree,
{
    match tree {
        Json::Number(Num::Int(n)) => i64::MIN <= n <= u64::MAX || nearest(n).spec_is_int(n),
        Json::Array(items) => forall|i: int|
            0 <= i < items.len() ==> integers_exact(#[trigger] items[i]),
        Json::Object(members) => forall|i: int|
            0 <= i < members.len() ==> integers_exact((#[trigger] members[i]).1),
        _ => true,
    }
}

/// A tree equals the tree of its owned value, where no key occurs twice and the
/// integers have 64 bits or are the values of floats.
pub proof fn owned_tree_is_equal(tree: Json)
    requires
        ownable(tree),
        keys_unique(tree),
        integers_exact(tree),
    ensures
        json_equal(tree, owned_tree(tree)),
    decreases tree,
{
    match tree {
        Json::Array(items) => {
            let owned = owned_tree(tree);
            assert forall|i: int| 0 <= i < items.len() implies json_equal(
                items[i],
                #[trigger] owned->Array_0[i],
            ) by {
                assert(decreases_to!(tree => tree->Array_0[i]));
                owned_tree_is_equal(items[i]);
            }
        },
        Json::Object(members) => {
            let pairs = owned_members(members);
            assert(pairs.len() == members.len());
            assert(keys_distinct(pairs)) by {
                assert forall|i: int, j: int| 0 <= i < j < pairs.len() implies #[trigger] pairs[i].0
                    != #[trigger] pairs[j].0 by {
                    assert(members[i].0 != members[j].0);
                }
            }
            lemma_collected_distinct(pairs);
            let owned = collected(pairs);
            assert(owned_tree(tree)->Object_0 == owned);
            assert forall|i: int| 0 <= i < owned.len() implies (match lookup(
                members,
                (#[trigger] owned[i]).0,
            ) {
                Some(value) => json_equal(value, owned[i].1),
                None => false,
            }) by {
                let j = choose|j: int| 0 <= j < pairs.len() && pairs[j] == owned[i];
                assert(pairs[j] == (members[j].0, owned_tree(members[j].1)));
                lookup_distinct(members, j);
                assert(decreases_to!(tree => tree->Object_0[j]));
                assert(decreases_to!(tree => tree->Object_0[j].1));
                owned_tree_is_equal(members[j].1);
            }
        },
        Json::Number(Num::Float(f)) => {},
        _ => {},
    }
}

/// A view equals the owned value that is made from it, where no key occurs twice and
/// the integers have 64 bits or are the values of floats.
pub proof fn view_equals_its_owned_value(view: InstanceRef<'_>)
    requires
        view.wf(),
        view.spec_is_json(),
        view.spec_is_ownable(),
        keys_unique(view.tree()),
        integers_exact(view.tree()),
    ensures
        view.equals_json(view.spec_to_owned()),
{
    equality_is_of_trees(view, view.spec_to_owned());
    match view.repr {
        InstanceRepr::Serde(value) => {
            owned_value_is_orderly(*value);
            equality_is_reflexive(value@);
        },
        _ => {
            owned_tree_is_equal(view.tree());
        },
    }
}

/// In an owned value no key occurs twice, no number is a NaN, the integers are exact, and
/// the value is the owned value of its tree.
pub proof fn owned_value_is_orderly(value: OwnedValue)
    requires
        value.wf(),
    ensures
        keys_unique(value@),
        numbers_defined(value@),
        integers_exact(value@),
        ownable(value@),
        owned_tree(value@) == value@,
    decreases value,
{
    match value {
        OwnedValue::Array(items) => {
            array_view(items);
            let tree = value@;
            assert forall|i: int| 0 <= i < items@.len() implies {
                let item = #[trigger] tree->Array_0[i];
                keys_unique(item) && numbers_defined(item) && integers_exact(item) && ownable(item)
                    && owned_tree(item) == item
            } by {
                assert(decreases_to!(value => value->Array_0));
                assert(decreases_to!(value => value->Array_0@));
                assert(decreases_to!(value => value->Array_0@[i]));
                assert(tree->Array_0[i] == items@[i]@);
                owned_value_is_orderly(items@[i]);
            }
            assert(owned_tree(tree)->Array_0 =~= tree->Array_0);
        },
        OwnedValue::Object(map) => {
            object_view(map);
            map_wf(map);
            let members = map@;
            let tree = value@;
            assert(tree->Object_0 == members);
            assert forall|i: int| 0 <= i < members.len() implies {
                let item = (#[trigger] members[i]).1;
                keys_unique(item) && numbers_defined(item) && integers_exact(item) && ownable(item)
                    && owned_tree(item) == item
            } by {
                assert(decreases_to!(value => value->Object_0));
                assert(decreases_to!(value => value->Object_0.entries));
                assert(decreases_to!(value => value->Object_0.entries@));
                assert(decreases_to!(value => value->Object_0.entries@[i]));
                assert(decreases_to!(value => value->Object_0.entries@[i].1));
                assert(members[i].1 == map.entries@[i].1@);
                owned_value_is_orderly(map.entries@[i].1);
            }
            assert(keys_ascending(members)) by {
                assert forall|i: int, j: int| 0 <= i < j < members.len() implies text_less(
                    #[trigger] members[i].0,
                    #[trigger] members[j].0,
                ) by {
                    assert(text_less(map.entries@[i].0@, map.entries@[j].0@));
                }
            }
            ascending_is_distinct(members);
            ascending_is_collected(members);
            assert(owned_members(members) =~= members);
        },
        _ => {},
    }
}

/// A view of an owned value equals that value.
pub proof fn serde_view_equals_its_value(value: OwnedValue)
    requires
        value.wf(),
    ensures
        (InstanceRef { repr: InstanceRepr::Serde(&value) }).equals_json(value@),
{
    let view = InstanceRef { repr: InstanceRepr::Serde(&value) };
    owned_value_is_orderly(value);
    equality_is_reflexive(value@);
    equality_is_of_trees(view, value@);
}

/// The owned value depends only on the tree, however the value is held.
pub proof fn owned_value_is_of_tree(view: InstanceRef<'_>)
    requires
        view.wf(),
    ensures
        view.spec_is_ownable() == ownable(view.tree()),
        view.spec_is_ownable() ==> view.spec_to_owned() == owned_tree(view.tree()),
{
    if let InstanceRepr::Serde(value) = view.repr {
        owned_value_is_orderly(*value);
    }
}

/// Of two owned values, a view of each equals the other or neither does.
pub proof fn owned_equality_is_symmetric(a: OwnedValue, b: OwnedValue)
    requires
        a.wf(),
        b.wf(),
    ensures
        (InstanceRef { repr: InstanceRepr::Serde(&a) }).equals_json(b@) == (InstanceRef {
            repr: InstanceRepr::Serde(&b),
        }).equals_json(a@),
{
    equality_is_of_trees(InstanceRef { repr: InstanceRepr::Serde(&a) }, b@);
    equality_is_of_trees(InstanceRef { repr: InstanceRepr::Serde(&b) }, a@);
    owned_value_is_orderly(a);
    owned_value_is_orderly(b);
    if json_equal(a@, b@) {
        equality_is_symmetric(a@, b@);
    }
    if json_equal(b@, a@) {
        equality_is_symmetric(b@, a@);
    }
}

/// A view that equals a value equals what a view of that value equals.
pub proof fn view_equality_is_transitive(view: InstanceRef<'_>, b: OwnedValue, c: OwnedValue)
    requires
        view.spec_is_json(),
        view.equals_json(b@),
        (InstanceRef { repr: InstanceRepr::Serde(&b) }).equals_json(c@),
    ensures
        view.equals_json(c@),
{
    equality_is_of_trees(view, b@);
    equality_is_of_trees(view, c@);
    equality_is_of_trees(InstanceRef { repr: InstanceRepr::Serde(&b) }, c@);
    equality_is_transitive(view.tree(), b@, c@);
}

/// Two views of equal trees equal the same values, however each is held.
pub proof fn equality_does_not_depend_on_representation(
    a: InstanceRef<'_>,
    b: InstanceRef<'_>,
    expected: OwnedValue,
)
    requires
        a.spec_is_json(),
        b.spec_is_json(),
        a.tree() == b.tree(),
    ensures
        a.equals_json(expected@) == b.equals_json(expected@),
{
    equality_is_of_trees(a, expected@);
    equality_is_of_trees(b, expected@);
}

} // verus!
