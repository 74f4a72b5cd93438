//! JSON values: the data model, and trees of values that own their parts.

use crate::float64::{nearest, Float64};
use crate::text::{is_less, same_text, text_less, text_less_total, text_less_transitive};
use vstd::prelude::*;

verus! {

/// A JSON number: an integer, or a number written with a fraction or an exponent.
pub enum Num {
    Int(int),
    Float(Float64),
}

impl Num {
    /// Equality by mathematical value.
    pub open spec fn equals(self, other: Num) -> bool {
        match (self, other) {
            (Num::Int(a), Num::Int(b)) => a == b,
            (Num::Int(a), Num::Float(b)) => b.spec_is_int(a),
            (Num::Float(a), Num::Int(b)) => a.spec_is_int(b),
            (Num::Float(a), Num::Float(b)) => a.spec_equals(b),
        }
    }

    /// Whether the number has no fractional part.
    pub open spec fn is_integer(self) -> bool {
        match self {
            Num::Int(_) => true,
            Num::Float(f) => f.spec_is_integral(),
        }
    }

    /// The nearest float.
    pub open spec fn to_float(self) -> Float64 {
        match self {
            Num::Int(n) => nearest(n),
            Num::Float(f) => f,
        }
    }

    /// The integer, if it is one between the bounds; a float is not, whatever its value.
    pub open spec fn integer_between(self, low: int, high: int) -> Option<int> {
        match self {
            Num::Int(n) => if low <= n <= high {
                Some(n)
            } else {
                None
            },
            Num::Float(_) => None,
        }
    }
}

/// A JSON value. The members of an object are in the order in which they are listed.
pub enum Json {
    Null,
    Bool(bool),
    Number(Num),
    Str(Seq<char>),
    Array(Seq<Json>),
    Object(Seq<(Seq<char>, Json)>),
}

impl Json {
    /// The member with the given key, where the value is an object that has one.
    pub open spec fn member(self, key: Seq<char>) -> Option<Json> {
        match self {
            Json::Object(members) => lookup(members, key),
            _ => None,
        }
    }

    /// The text, where the value is a string.
    pub open spec fn text(self) -> Option<Seq<char>> {
        match self {
            Json::Str(s) => Some(s),
            _ => None,
        }
    }
}

/// The value of the first member with the given key.
pub open spec fn lookup<V>(members: Seq<(Seq<char>, V)>, key: Seq<char>) -> Option<V>
    decreases members.len(),
{
    if members.len() == 0 {
        None
    } else if members[0].0 == key {
        Some(members[0].1)
    } else {
        lookup(members.drop_first(), key)
    }
}

/// Whether the keys are strictly ascending.
pub open spec fn keys_ascending<V>(members: Seq<(Seq<char>, V)>) -> bool {
    forall|i: int, j: int|
        0 <= i < j < members.len() ==> text_less(#[trigger] members[i].0, #[trigger] members[j].0)
}

/// Whether no key occurs twice.
pub open spec fn keys_distinct<V>(members: Seq<(Seq<char>, V)>) -> bool {
    forall|i: int, j: int|
        0 <= i < j < members.len() ==> #[trigger] members[i].0 != #[trigger] members[j].0
}

/// How many leading members come before a key.
pub open spec fn rank<V>(members: Seq<(Seq<char>, V)>, key: Seq<char>) -> nat
    decreases members.len(),
{
    if members.len() == 0 || !text_less(members[0].0, key) {
        0
    } else {
        1 + rank(members.drop_first(), key)
    }
}

/// The members after a value is stored under a key: in place of the member with
/// that key, or else at the place of the key in the order.
pub open spec fn stored<V>(members: Seq<(Seq<char>, V)>, key: Seq<char>, value: V) -> Seq<
    (Seq<char>, V),
> {
    let at = rank(members, key) as int;
    if at < members.len() && members[at].0 == key {
        members.update(at, (key, value))
    } else {
        members.insert(at, (key, value))
    }
}

/// The members after all of `added` are stored, one after the other.
pub open spec fn collected<V>(added: Seq<(Seq<char>, V)>) -> Seq<(Seq<char>, V)>
    decreases added.len(),
{
    if added.len() == 0 {
        Seq::empty()
    } else {
        stored(collected(added.drop_last()), added.last().0, added.last().1)
    }
}

/// A JSON number that an [`OwnedValue`] holds.
#[derive(Clone, Copy, Debug)]
pub enum OwnedNumber {
    PosInt(u64),
    /// Always less than zero.
    NegInt(i64),
    /// Always finite.
    Float(Float64),
}

impl View for OwnedNumber {
    type V = Num;

    open spec fn view(&self) -> Num {
        match *self {
            OwnedNumber::PosInt(n) => Num::Int(n as int),
            OwnedNumber::NegInt(n) => Num::Int(n as int),
            OwnedNumber::Float(f) => Num::Float(f),
        }
    }
}

impl OwnedNumber {
    pub open spec fn wf(self) -> bool {
        match self {
            OwnedNumber::PosInt(_) => true,
            OwnedNumber::NegInt(n) => n < 0,
            OwnedNumber::Float(f) => f.spec_is_finite(),
        }
    }

    /// The number as an `i64`, where it is an integer that fits.
    pub fn as_i64(&self) -> (n: Option<i64>)
        ensures
            n is Some <==> self@.integer_between(i64::MIN as int, i64::MAX as int) is Some,
            n matches Some(v) ==> self@ == Num::Int(v as int),
    {
        match *self {
            OwnedNumber::PosInt(n) => if n <= i64::MAX as u64 {
                Some(n as i64)
            } else {
                None
            },
            OwnedNumber::NegInt(n) => Some(n),
            OwnedNumber::Float(_) => None,
        }
    }

    /// The number as a `u64`, where it is an integer that fits.
    pub fn as_u64(&self) -> (n: Option<u64>)
        requires
            self.wf(),
        ensures
            n is Some <==> self@.integer_between(0, u64::MAX as int) is Some,
            n matches Some(v) ==> self@ == Num::Int(v as int),
    {
        match *self {
            OwnedNumber::PosInt(n) => Some(n),
            OwnedNumber::NegInt(_) | OwnedNumber::Float(_) => None,
        }
    }

    /// The float nearest to the number.
    pub fn as_f64(&self) -> (float: Option<Float64>)
        ensures
            float == Some(self@.to_float()),
    {
        match *self {
            OwnedNumber::PosInt(n) => Some(Float64::from_integer(false, n)),
            OwnedNumber::NegInt(n) => Some(Float64::from_i64(n)),
            OwnedNumber::Float(f) => Some(f),
        }
    }

    /// Whether the number has no fractional part.
    pub fn is_integer(&self) -> (integer: bool)
        ensures
            integer == self@.is_integer(),
    {
        match *self {
            OwnedNumber::PosInt(_) | OwnedNumber::NegInt(_) => true,
            OwnedNumber::Float(f) => f.is_integral(),
        }
    }

    /// The integer `n`.
    pub fn from_i64(n: i64) -> (number: OwnedNumber)
        ensures
            number@ == Num::Int(n as int),
            number.wf(),
    {
        if n < 0 {
            OwnedNumber::NegInt(n)
        } else {
            OwnedNumber::PosInt(n as u64)
        }
    }

    /// The integer `n`.
    pub fn from_u64(n: u64) -> (number: OwnedNumber)
        ensures
            number@ == Num::Int(n as int),
            number.wf(),
    {
        OwnedNumber::PosInt(n)
    }

    /// The number of a float, where the float is finite.
    pub fn from_f64(float: Float64) -> (number: Option<OwnedNumber>)
        ensures
            number is Some <==> float.spec_is_finite(),
            number matches Some(n) ==> n@ == Num::Float(float) && n.wf(),
    {
        if float.is_finite() {
            Some(OwnedNumber::Float(float))
        } else {
            None
        }
    }
}

/// A JSON value that owns its parts.
#[derive(Debug)]
pub enum OwnedValue {
    Null,
    Bool(bool),
    Number(OwnedNumber),
    String(String),
    Array(Vec<OwnedValue>),
    Object(ObjectMap),
}

/// The members of an object, in ascending order of their keys.
#[derive(Debug)]
pub struct ObjectMap {
    pub entries: Vec<(String, OwnedValue)>,
}

/// The keys and values that pairs hold.
pub open spec fn members_of(entries: Seq<(String, OwnedValue)>) -> Seq<(Seq<char>, Json)> {
    Seq::new(entries.len(), |i: int| (entries[i].0@, entries[i].1.json()))
}

impl OwnedValue {
    /// The value as a tree.
    pub open spec fn json(self) -> Json
        decreases self,
    {
        match self {
            OwnedValue::Null => Json::Null,
            OwnedValue::Bool(b) => Json::Bool(b),
            OwnedValue::Number(n) => Json::Number(n@),
            OwnedValue::String(s) => Json::Str(s@),
            OwnedValue::Array(items) => Json::Array(
                Seq::new(
                    items@.len(),
                    |i: int|
                        if 0 <= i < items@.len() {
                            items@[i].json()
                        } else {
                            Json::Null
                        },
                ),
            ),
            OwnedValue::Object(map) => Json::Object(
                Seq::new(
                    map.entries@.len(),
                    |i: int|
                        if 0 <= i < map.entries@.len() {
                            (map.entries@[i].0@, map.entries@[i].1.json())
                        } else {
                            (Seq::empty(), Json::Null)
                        },
                ),
            ),
        }
    }

    /// What holds of every value: its numbers are in their normal form, and the
    /// keys of its objects ascend.
    pub open spec fn wf(self) -> bool
        decreases self,
    {
        match self {
            OwnedValue::Number(n) => n.wf(),
            OwnedValue::Array(items) => forall|i: int|
                0 <= i < items@.len() ==> (#[trigger] items@[i]).wf(),
            OwnedValue::Object(map) => {
                &&& forall|i: int, j: int|
                    0 <= i < j < map.entries@.len() ==> text_less(
                        #[trigger] map.entries@[i].0@,
                        #[trigger] map.entries@[j].0@,
                    )
                &&& forall|i: int|
                    0 <= i < map.entries@.len() ==> (#[trigger] map.entries@[i]).1.wf()
            },
            _ => true,
        }
    }
}

impl View for OwnedValue {
    type V = Json;

    open spec fn view(&self) -> Json {
        self.json()
    }
}

impl View for ObjectMap {
    type V = Seq<(Seq<char>, Json)>;

    open spec fn view(&self) -> Seq<(Seq<char>, Json)> {
        members_of(self.entries@)
    }
}

/// The trees of values.
pub open spec fn trees_of(items: Seq<OwnedValue>) -> Seq<Json> {
    Seq::new(items.len(), |i: int| items[i].json())
}

/// The tree of an array is that of its items.
pub proof fn array_view(items: Vec<OwnedValue>)
    ensures
        OwnedValue::Array(items)@ == Json::Array(trees_of(items@)),
{
    assert(OwnedValue::Array(items).json()->Array_0 =~= trees_of(items@));
}

/// The tree of an object is that of its members.
pub proof fn object_view(map: ObjectMap)
    ensures
        OwnedValue::Object(map)@ == Json::Object(map@),
{
    assert(OwnedValue::Object(map).json()->Object_0 =~= members_of(map.entries@));
}

/// Skipping members that do not have a key changes nothing about where the key is found.
pub proof fn lookup_skips<V>(members: Seq<(Seq<char>, V)>, key: Seq<char>, k: int)
    requires
        0 <= k <= members.len(),
        forall|i: int| 0 <= i < k ==> (#[trigger] members[i]).0 != key,
    ensures
        lookup(members, key) == lookup(members.skip(k), key),
    decreases k,
{
    if k == 0 {
        assert(members.skip(0) =~= members);
    } else {
        let rest = members.drop_first();
        assert forall|i: int| 0 <= i < k - 1 implies (#[trigger] rest[i]).0 != key by {
            assert(rest[i] == members[i + 1]);
        }
        lookup_skips(rest, key, k - 1);
        assert(rest.skip(k - 1) =~= members.skip(k));
    }
}

/// Where the first member with a key is, its value is what is found.
pub proof fn lookup_first<V>(members: Seq<(Seq<char>, V)>, key: Seq<char>, k: int)
    requires
        0 <= k < members.len(),
        members[k].0 == key,
        forall|i: int| 0 <= i < k ==> (#[trigger] members[i]).0 != key,
    ensures
        lookup(members, key) == Some(members[k].1),
{
    lookup_skips(members, key, k);
    assert(members.skip(k)[0] == members[k]);
}

/// A key that some member has is found.
pub proof fn lookup_present<V>(members: Seq<(Seq<char>, V)>, key: Seq<char>, k: int)
    requires
        0 <= k < members.len(),
        members[k].0 == key,
    ensures
        lookup(members, key) is Some,
    decreases k,
{
    if k > 0 && members[0].0 != key {
        assert(members.drop_first()[k - 1] == members[k]);
        lookup_present(members.drop_first(), key, k - 1);
    }
}

/// A key that no member has is not found.
pub proof fn lookup_absent<V>(members: Seq<(Seq<char>, V)>, key: Seq<char>)
    requires
        forall|i: int| 0 <= i < members.len() ==> (#[trigger] members[i]).0 != key,
    ensures
        lookup(members, key) is None,
{
    lookup_skips(members, key, members.len() as int);
}

/// A key is found exactly where some member has it.
pub proof fn found_where_listed<V>(members: Seq<(Seq<char>, V)>, key: Seq<char>)
    ensures
        lookup(members, key) is Some <==> exists|i: int|
            0 <= i < members.len() && (#[trigger] members[i]).0 == key,
{
    if exists|i: int| 0 <= i < members.len() && (#[trigger] members[i]).0 == key {
        let i = choose|i: int| 0 <= i < members.len() && (#[trigger] members[i]).0 == key;
        lookup_present(members, key, i);
    } else {
        lookup_absent(members, key);
    }
}

/// What holds of the members of an object.
pub proof fn map_wf(map: ObjectMap)
    ensures
        map.wf() <==> {
            &&& forall|i: int, j: int|
                0 <= i < j < map.entries@.len() ==> text_less(
                    #[trigger] map.entries@[i].0@,
                    #[trigger] map.entries@[j].0@,
                )
            &&& forall|i: int| 0 <= i < map.entries@.len() ==> (#[trigger] map.entries@[i]).1.wf()
        },
{
    let object = OwnedValue::Object(map);
    assert(object->Object_0 == map);
}

impl ObjectMap {
    pub open spec fn wf(self) -> bool {
        OwnedValue::Object(self).wf()
    }

    /// The number of members.
    pub fn len(&self) -> (n: usize)
        ensures
            n == self@.len(),
    {
        self.entries.len()
    }

    /// The value of the member with the given key.
    pub fn get(&self, key: &str) -> (value: Option<&OwnedValue>)
        ensures
            value is Some <==> lookup(self@, key@) is Some,
            value matches Some(v) ==> lookup(self@, key@) == Some(v@),
            value matches Some(v) ==> exists|i: int|
                #![trigger self.entries@[i]]
                0 <= i < self.entries@.len() && self.entries@[i].0@ == key@ && self.entries@[i].1
                    == *v && forall|j: int| 0 <= j < i ==> (#[trigger] self.entries@[j]).0@ != key@,
    {
        let mut i: usize = 0;
        while i < self.entries.len()
            invariant
                i <= self.entries.len(),
                forall|k: int| 0 <= k < i ==> (#[trigger] self@[k]).0 != key@,
            decreases self.entries.len() - i,
        {
            if same_text(self.entries[i].0.as_str(), key) {
                proof {
                    lookup_first(self@, key@, i as int);
                    assert forall|j: int| 0 <= j < i implies (#[trigger] self.entries@[j]).0@
                        != key@ by {
                        assert(self@[j].0 != key@);
                    }
                }
                return Some(&self.entries[i].1);
            }
            i += 1;
        }
        proof {
            lookup_absent(self@, key@);
        }
        None
    }

    /// A map without members.
    pub fn new() -> (map: ObjectMap)
        ensures
            map@ == Seq::<(Seq<char>, Json)>::empty(),
            map.wf(),
    {
        let map = ObjectMap { entries: Vec::new() };
        assert(map@ =~= Seq::empty());
        map
    }

    /// Stores a value under a key, in place of the value that was there.
    pub fn insert(&mut self, key: String, value: OwnedValue)
        requires
            old(self).wf(),
            value.wf(),
        ensures
            final(self)@ == stored(old(self)@, key@, value@),
            final(self).wf(),
    {
        let ghost before = self@;
        let ghost entries = self.entries@;
        proof {
            map_wf(*self);
        }
        let mut at: usize = 0;
        assert(before.skip(0) =~= before);
        while at < self.entries.len() && is_less(self.entries[at].0.as_str(), key.as_str())
            invariant
                at <= self.entries.len(),
                self@ == before,
                self.entries@ == entries,
                rank(before, key@) == at + rank(before.skip(at as int), key@),
                forall|k: int| 0 <= k < at ==> text_less((#[trigger] before[k]).0, key@),
            decreases self.entries.len() - at,
        {
            assert(before.skip(at as int).drop_first() =~= before.skip(at + 1));
            assert(before.skip(at as int)[0] == before[at as int]);
            at += 1;
        }
        proof {
            if at < before.len() {
                assert(before.skip(at as int)[0] == before[at as int]);
            }
            assert(rank(before, key@) == at);
        }
        if at < self.entries.len() && same_text(self.entries[at].0.as_str(), key.as_str()) {
            self.entries.set(at, (key, value));
            assert(self.entries@ == entries.update(at as int, (key, value)));
            assert(self@ =~= before.update(at as int, (key@, value@)));
            assert forall|i: int, j: int| 0 <= i < j < self.entries@.len() implies text_less(
                #[trigger] self.entries@[i].0@,
                #[trigger] self.entries@[j].0@,
            ) by {
                assert(text_less(entries[i].0@, entries[j].0@));
            }
        } else {
            proof {
                if at < before.len() {
                    text_less_total(before[at as int].0, key@);
                }
            }
            let ghost (k, v) = (key@, value@);
            self.entries.insert(at, (key, value));
            assert(self.entries@ == entries.insert(at as int, (key, value)));
            assert(self@ =~= before.insert(at as int, (k, v)));
            assert forall|i: int, j: int| 0 <= i < j < self.entries@.len() implies text_less(
                #[trigger] self.entries@[i].0@,
                #[trigger] self.entries@[j].0@,
            ) by {
                let p = if i < at {
                    i
                } else {
                    i - 1
                };
                let q = if j < at {
                    j
                } else {
                    j - 1
                };
                if i != at && j != at {
                    assert(text_less(entries[p].0@, entries[q].0@));
                } else if i == at {
                    assert(text_less(k, before[at as int].0));
                    if q != at {
                        assert(text_less(entries[at as int].0@, entries[q].0@));
                        text_less_transitive(k, entries[at as int].0@, entries[q].0@);
                    }
                } else {
                    assert(text_less(before[i].0, k));
                }
            }
        }
    }
}

impl OwnedValue {
    /// A value of its own with the same tree.
    fn duplicate(&self) -> (copy: OwnedValue)
        ensures
            copy@ == self@,
            self.wf() ==> copy.wf(),
        decreases self,
    {
        match self {
            OwnedValue::Null => OwnedValue::Null,
            OwnedValue::Bool(b) => OwnedValue::Bool(*b),
            OwnedValue::Number(n) => OwnedValue::Number(*n),
            OwnedValue::String(s) => OwnedValue::String(s.clone()),
            OwnedValue::Array(items) => {
                let mut copies: Vec<OwnedValue> = Vec::new();
                let mut i: usize = 0;
                while i < items.len()
                    invariant
                        *self == OwnedValue::Array(*items),
                        i <= items.len(),
                        copies.len() == i,
                        forall|k: int|
                            0 <= k < i ==> (#[trigger] copies@[k]).json() == items@[k].json(),
                        self.wf() ==> forall|k: int| 0 <= k < i ==> (#[trigger] copies@[k]).wf(),
                    decreases items.len() - i,
                {
                    proof {
                        assert(decreases_to!(*self => self->Array_0));
                        assert(decreases_to!(*self => self->Array_0@));
                        assert(decreases_to!(*self => self->Array_0@[i as int]));
                    }
                    copies.push(items[i].duplicate());
                    i += 1;
                }
                let copy = OwnedValue::Array(copies);
                assert(copy.json()->Array_0 =~= self.json()->Array_0);
                copy
            },
            OwnedValue::Object(map) => {
                let mut copies: Vec<(String, OwnedValue)> = Vec::new();
                let mut i: usize = 0;
                while i < map.entries.len()
                    invariant
                        *self == OwnedValue::Object(*map),
                        i <= map.entries.len(),
                        copies.len() == i,
                        forall|k: int|
                            0 <= k < i ==> (#[trigger] copies@[k]).0@ == map.entries@[k].0@
                                && copies@[k].1.json() == map.entries@[k].1.json(),
                        self.wf() ==> forall|k: int| 0 <= k < i ==> (#[trigger] copies@[k]).1.wf(),
                    decreases map.entries.len() - i,
                {
                    proof {
                        assert(decreases_to!(*self => self->Object_0));
                        assert(decreases_to!(*self => self->Object_0.entries));
                        assert(decreases_to!(*self => self->Object_0.entries@));
                        assert(decreases_to!(*self => self->Object_0.entries@[i as int]));
                        assert(decreases_to!(*self => self->Object_0.entries@[i as int].1));
                    }
                    copies.push((map.entries[i].0.clone(), map.entries[i].1.duplicate()));
                    i += 1;
                }
                let copy = OwnedValue::Object(ObjectMap { entries: copies });
                assert(copy.json()->Object_0 =~= self.json()->Object_0);
                copy
            },
        }
    }

    /// The member with the given key, where the value is an object that has one.
    pub fn get(&self, key: &str) -> (member: Option<&OwnedValue>)
        ensures
            member is Some <==> self@.member(key@) is Some,
            member matches Some(v) ==> self@.member(key@) == Some(v@),
            self.wf() && member is Some ==> member->0.wf(),
    {
        match self {
            OwnedValue::Object(map) => {
                proof {
                    object_view(*map);
                }
                map.get(key)
            },
            _ => None,
        }
    }

    /// The items, where the value is an array.
    pub fn as_array(&self) -> (items: Option<&Vec<OwnedValue>>)
        ensures
            items is Some <==> self is Array,
            items matches Some(v) ==> *self == OwnedValue::Array(*v),
    {
        match self {
            OwnedValue::Array(items) => Some(items),
            _ => None,
        }
    }

    /// The members, where the value is an object.
    pub fn as_object(&self) -> (map: Option<&ObjectMap>)
        ensures
            map is Some <==> self is Object,
            map matches Some(m) ==> *self == OwnedValue::Object(*m),
    {
        match self {
            OwnedValue::Object(map) => Some(map),
            _ => None,
        }
    }

    /// The text, where the value is a string.
    pub fn as_str(&self) -> (text: Option<&str>)
        ensures
            text is Some <==> self@ is Str,
            text matches Some(s) ==> self@ == Json::Str(s@),
    {
        match self {
            OwnedValue::String(s) => Some(s.as_str()),
            _ => None,
        }
    }
}

impl Clone for OwnedValue {
    fn clone(&self) -> (copy: OwnedValue)
        ensures
            copy@ == self@,
            self.wf() ==> copy.wf(),
    {
        self.duplicate()
    }
}

} // verus!
