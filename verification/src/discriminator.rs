//! The property by which the subschemas of `oneOf` can be told apart.
//!
//! Where each subschema requires one and the same property to be a constant text of
//! its own, that property tells which subschema an object can match.

use crate::compiler::Context;
use crate::instance::InstanceRef;
use crate::text::same_text;
use crate::value::{array_view, lookup, object_view, trees_of, Json, OwnedValue};
use ahash::AHashMap;
use vstd::prelude::*;

verus! {

/// `ahash::RandomState`, which hashes the keys of a map.
#[verifier::external_type_specification]
#[verifier::external_body]
pub struct ExRandomState(ahash::RandomState);

/// `ahash::AHashMap`.
#[verifier::external_type_specification]
#[verifier::external_body]
#[verifier::reject_recursive_types(K)]
#[verifier::reject_recursive_types(V)]
#[verifier::reject_recursive_types(S)]
pub struct ExAHashMap<K, V, S>(ahash::AHashMap<K, V, S>);

/// What a map from texts to numbers holds.
pub uninterp spec fn branches_of(map: AHashMap<String, usize>) -> Map<Seq<char>, usize>;

/// The map that holds nothing.
pub open spec fn no_branches() -> Map<Seq<char>, usize> {
    Map::empty()
}

/// For how many branches room is made in advance, at most.
const MAX_CAPACITY: usize = 0x1_0000;

/// `AHashMap::with_capacity`: trusted to make a map that holds nothing.
#[verifier::external_body]
fn branches_with_capacity(capacity: usize) -> (map: AHashMap<String, usize>)
    requires
        capacity <= MAX_CAPACITY,
    ensures
        branches_of(map) == no_branches(),
{
    AHashMap::with_capacity(capacity)
}

/// `AHashMap::insert`: trusted to store the number under the text, and to give the
/// number that was stored there before.
#[verifier::external_body]
fn insert_branch(map: &mut AHashMap<String, usize>, key: String, index: usize) -> (before: Option<
    usize,
>)
    ensures
        branches_of(*final(map)) == branches_of(*old(map)).insert(key@, index),
        before == branches_of(*old(map)).get(key@),
{
    map.insert(key, index)
}

/// `AHashMap::get`, with the number copied: trusted to give the number that is
/// stored under the text.
#[verifier::external_body]
fn get_branch(map: &AHashMap<String, usize>, key: &str) -> (index: Option<usize>)
    ensures
        index == branches_of(*map).get(key@),
{
    map.get(key).copied()
}

/// The schema itself, or the one that its reference leads to.
pub open spec fn resolved(resources: Seq<(Seq<char>, Json)>, schema: Json) -> Option<Json> {
    match schema.member("$ref"@) {
        Some(Json::Str(reference)) => lookup(resources, reference),
        _ => Some(schema),
    }
}

/// Whether a schema requires a property.
pub open spec fn requires_property(schema: Json, property: Seq<char>) -> bool {
    schema.member("required"@) matches Some(Json::Array(names)) && names.contains(
        Json::Str(property),
    )
}

/// The text that a schema states a property to be.
pub open spec fn string_const(properties: Json, property: Seq<char>) -> Option<Seq<char>> {
    match properties.member(property) {
        Some(schema) => match schema.member("const"@) {
            Some(value) => value.text(),
            None => None,
        },
        None => None,
    }
}

/// The text that a schema requires a property to be.
pub open spec fn required_const(schema: Json, property: Seq<char>) -> Option<Seq<char>> {
    match schema.member("properties"@) {
        Some(properties) => if requires_property(schema, property) {
            string_const(properties, property)
        } else {
            None
        },
        None => None,
    }
}

/// The text that a subschema, or what it refers to, requires a property to be.
pub open spec fn branch_const(
    resources: Seq<(Seq<char>, Json)>,
    schema: Json,
    property: Seq<char>,
) -> Option<Seq<char>> {
    match resolved(resources, schema) {
        Some(schema) => required_const(schema, property),
        None => None,
    }
}

/// Whether a property tells the subschemas apart: each requires it to be a text of
/// its own.
pub open spec fn tells_apart(
    resources: Seq<(Seq<char>, Json)>,
    schemas: Seq<Json>,
    property: Seq<char>,
) -> bool {
    &&& forall|i: int|
        0 <= i < schemas.len() ==> branch_const(
            resources,
            #[trigger] schemas[i],
            property,
        ) is Some
    &&& forall|i: int, j: int|
        0 <= i < j < schemas.len() ==> branch_const(resources, #[trigger] schemas[i], property)
            != branch_const(resources, #[trigger] schemas[j], property)
}

/// The branch of each text: of the text of each of the first `n` subschemas, its place.
pub open spec fn branch_map(
    resources: Seq<(Seq<char>, Json)>,
    schemas: Seq<Json>,
    property: Seq<char>,
    n: nat,
) -> Map<Seq<char>, usize>
    decreases n,
{
    if n == 0 {
        Map::empty()
    } else {
        branch_map(resources, schemas, property, (n - 1) as nat).insert(
            branch_const(resources, schemas[n - 1], property)->0,
            (n - 1) as usize,
        )
    }
}

/// The names that a list of required properties gives of properties that are stated
/// to be a text, each with that text, in their order.
pub open spec fn candidates_among(names: Seq<Json>, properties: Json) -> Seq<(Seq<char>, Seq<char>)>
    decreases names.len(),
{
    if names.len() == 0 {
        Seq::empty()
    } else {
        let before = candidates_among(names.drop_last(), properties);
        match names.last().text() {
            Some(name) => match string_const(properties, name) {
                Some(value) => before.push((name, value)),
                None => before,
            },
            None => before,
        }
    }
}

/// The properties that a schema requires to be a text, each with that text.
pub open spec fn candidates(schema: Json) -> Option<Seq<(Seq<char>, Seq<char>)>> {
    match (schema.member("required"@), schema.member("properties"@)) {
        (Some(Json::Array(names)), Some(Json::Object(properties))) => Some(
            candidates_among(names, Json::Object(properties)),
        ),
        _ => None,
    }
}

/// The properties that a subschema, or what it refers to, requires to be a text.
pub open spec fn branch_candidates(resources: Seq<(Seq<char>, Json)>, schema: Json) -> Option<
    Seq<(Seq<char>, Seq<char>)>,
> {
    match resolved(resources, schema) {
        Some(schema) => candidates(schema),
        None => None,
    }
}

/// The first of some properties that tells the subschemas apart.
pub open spec fn first_telling(
    resources: Seq<(Seq<char>, Json)>,
    schemas: Seq<Json>,
    properties: Seq<(Seq<char>, Seq<char>)>,
) -> Option<Seq<char>>
    decreases properties.len(),
{
    if properties.len() == 0 {
        None
    } else if tells_apart(resources, schemas, properties[0].0) {
        Some(properties[0].0)
    } else {
        first_telling(resources, schemas, properties.drop_first())
    }
}

/// The property by which the subschemas are told apart: the first of those that the
/// first subschema requires to be a text.
pub open spec fn telling_property(
    resources: Seq<(Seq<char>, Json)>,
    schemas: Seq<Json>,
) -> Option<Seq<char>> {
    if schemas.len() == 0 {
        None
    } else {
        match branch_candidates(resources, schemas[0]) {
            Some(properties) => first_telling(resources, schemas, properties),
            None => None,
        }
    }
}

/// A property, and which subschema goes with each text that it can be.
pub struct OneOfDiscriminator {
    pub property: String,
    pub branches: AHashMap<String, usize>,
}

impl OneOfDiscriminator {
    /// Whether this tells subschemas apart by the given property.
    pub open spec fn is_by(
        self,
        resources: Seq<(Seq<char>, Json)>,
        schemas: Seq<Json>,
        property: Seq<char>,
    ) -> bool {
        &&& self.property@ == property
        &&& tells_apart(resources, schemas, property)
        &&& branches_of(self.branches) == branch_map(resources, schemas, property, schemas.len())
    }

    /// The branch of an object whose property is the text of one.
    pub open spec fn spec_branch(self, instance: InstanceRef<'_>) -> Option<usize> {
        match instance.spec_entries() {
            Some(entries) => match lookup(entries, self.property@) {
                Some(value) => match value.spec_as_str() {
                    Some(text) => branches_of(self.branches).get(text),
                    None => None,
                },
                None => None,
            },
            None => None,
        }
    }

    /// The branch of an object whose property is the text of one.
    pub fn branch(&self, instance: InstanceRef<'_>) -> (index: Option<usize>)
        requires
            instance.wf(),
        ensures
            index == self.spec_branch(instance),
    {
        let value = instance.as_object()?.get(self.property.as_str())?;
        get_branch(&self.branches, value.as_str()?)
    }
}

/// The texts that strings hold.
pub open spec fn pairs_of(pairs: Seq<(String, String)>) -> Seq<(Seq<char>, Seq<char>)> {
    Seq::new(pairs.len(), |i: int| (pairs[i].0@, pairs[i].1@))
}

/// The text that a schema requires a property to be.
pub fn required_string_const_from_schema(schema: &OwnedValue, property: &str) -> (text: Option<String>)
    ensures
        text is Some <==> required_const(schema@, property@) is Some,
        text matches Some(s) ==> required_const(schema@, property@) == Some(s@),
{
    let required = schema.get("required")?.as_array()?;
    proof {
        array_view(*required);
    }
    let ghost names = trees_of(required@);
    let mut present = false;
    let mut i: usize = 0;
    while i < required.len()
        invariant
            i <= required.len(),
            names == trees_of(required@),
            present <==> exists|k: int| 0 <= k < i && #[trigger] names[k] == Json::Str(property@),
        decreases required.len() - i,
    {
        assert(names[i as int] == required@[i as int]@);
        if let Some(name) = required[i].as_str() {
            if same_text(name, property) {
                present = true;
            }
        }
        i += 1;
    }
    assert(present == requires_property(schema@, property@));
    if !present {
        return None;
    }
    let text = schema.get("properties")?.get(property)?.get("const")?.as_str()?;
    Some(text.to_owned())
}

/// The text that a subschema, or what it refers to, requires a property to be.
pub fn required_string_const(ctx: &Context<'_>, schema: &OwnedValue, property: &str) -> (text: Option<
    String,
>)
    ensures
        text is Some <==> branch_const(ctx.resources@, schema@, property@) is Some,
        text matches Some(s) ==> branch_const(ctx.resources@, schema@, property@) == Some(s@),
{
    if let Some(target) = schema.get("$ref") {
        if let Some(reference) = target.as_str() {
            let resolved = ctx.lookup(reference)?;
            return required_string_const_from_schema(resolved, property);
        }
    }
    required_string_const_from_schema(schema, property)
}

/// The properties that a schema requires to be a text, each with that text.
pub fn discriminator_candidates_from_schema(schema: &OwnedValue) -> (found: Option<
    Vec<(String, String)>,
>)
    ensures
        found is Some <==> candidates(schema@) is Some,
        found matches Some(pairs) ==> candidates(schema@) == Some(pairs_of(pairs@)),
{
    let required = schema.get("required")?.as_array()?;
    let stated = schema.get("properties")?;
    let properties = stated.as_object()?;
    proof {
        array_view(*required);
        object_view(*properties);
    }
    let ghost names = trees_of(required@);
    let mut pairs: Vec<(String, String)> = Vec::new();
    let mut i: usize = 0;
    assert(names.take(0) =~= Seq::empty());
    assert(pairs_of(pairs@) =~= Seq::empty());
    while i < required.len()
        invariant
            i <= required.len(),
            names == trees_of(required@),
            stated@ == Json::Object(properties@),
            pairs_of(pairs@) == candidates_among(names.take(i as int), stated@),
        decreases required.len() - i,
    {
        let ghost before = pairs@;
        proof {
            assert(names[i as int] == required@[i as int]@);
            assert(names.take(i + 1).drop_last() =~= names.take(i as int));
            assert(names.take(i + 1).last() == names[i as int]);
        }
        if let Some(property) = required[i].as_str() {
            if let Some(text) = stated_text(stated, property) {
                pairs.push((property.to_owned(), text));
                assert(pairs_of(pairs@) =~= pairs_of(before).push((property@, text@)));
            }
        }
        i += 1;
    }
    assert(names.take(i as int) =~= names);
    Some(pairs)
}

/// The text that a schema states a property to be.
fn stated_text(properties: &OwnedValue, property: &str) -> (text: Option<String>)
    ensures
        text is Some <==> string_const(properties@, property@) is Some,
        text matches Some(s) ==> string_const(properties@, property@) == Some(s@),
{
    let text = properties.get(property)?.get("const")?.as_str()?;
    Some(text.to_owned())
}

/// The properties that a subschema, or what it refers to, requires to be a text.
pub fn discriminator_candidates(ctx: &Context<'_>, schema: &OwnedValue) -> (found: Option<
    Vec<(String, String)>,
>)
    ensures
        found is Some <==> branch_candidates(ctx.resources@, schema@) is Some,
        found matches Some(pairs) ==> branch_candidates(ctx.resources@, schema@) == Some(
            pairs_of(pairs@),
        ),
{
    if let Some(target) = schema.get("$ref") {
        if let Some(reference) = target.as_str() {
            let resolved = ctx.lookup(reference)?;
            return discriminator_candidates_from_schema(resolved);
        }
    }
    discriminator_candidates_from_schema(schema)
}

/// The texts that lead to a branch are those of the subschemas.
proof fn lemma_branch_map(
    resources: Seq<(Seq<char>, Json)>,
    schemas: Seq<Json>,
    property: Seq<char>,
    n: nat,
    text: Seq<char>,
)
    requires
        n <= schemas.len(),
        n <= usize::MAX,
    ensures
        branch_map(resources, schemas, property, n).contains_key(text) <==> exists|k: int|
            0 <= k < n && branch_const(resources, #[trigger] schemas[k], property)->0 == text,
        branch_map(resources, schemas, property, n).contains_key(text) ==> {
            let index = branch_map(resources, schemas, property, n)[text];
            index < n && branch_const(resources, schemas[index as int], property)->0 == text
        },
    decreases n,
{
    if n > 0 {
        lemma_branch_map(resources, schemas, property, (n - 1) as nat, text);
        let map = branch_map(resources, schemas, property, n);
        if branch_const(resources, schemas[n - 1], property)->0 == text {
            assert(map.contains_key(text));
        } else if map.contains_key(text) {
            let k = choose|k: int|
                0 <= k < n - 1 && branch_const(resources, #[trigger] schemas[k], property)->0
                    == text;
            assert(0 <= k < n);
        }
    }
}

/// A text leads to the subschema that requires the property to be that text, and to
/// no other.
pub proof fn branches_are_in_range(
    discriminator: OneOfDiscriminator,
    resources: Seq<(Seq<char>, Json)>,
    schemas: Seq<Json>,
    property: Seq<char>,
)
    requires
        discriminator.is_by(resources, schemas, property),
        schemas.len() <= usize::MAX,
    ensures
        forall|text: Seq<char>| #[trigger]
            branches_of(discriminator.branches).contains_key(text) ==> branches_of(
                discriminator.branches,
            )[text] < schemas.len(),
        forall|text: Seq<char>, i: int|
            0 <= i < schemas.len() ==> (branch_const(resources, #[trigger] schemas[i], property)
                == Some(text) <==> #[trigger] branches_of(discriminator.branches).get(text) == Some(
                i as usize,
            )),
{
    let map = branches_of(discriminator.branches);
    assert forall|text: Seq<char>| #[trigger] map.contains_key(text) implies map[text]
        < schemas.len() by {
        lemma_branch_map(resources, schemas, property, schemas.len(), text);
    }
    assert forall|text: Seq<char>, i: int| 0 <= i < schemas.len() implies (branch_const(
        resources,
        #[trigger] schemas[i],
        property,
    ) == Some(text) <==> #[trigger] map.get(text) == Some(i as usize)) by {
        lemma_branch_map(resources, schemas, property, schemas.len(), text);
        if branch_const(resources, schemas[i], property) == Some(text) {
            assert(map.contains_key(text));
            let k = map[text] as int;
            assert(branch_const(resources, schemas[k], property) is Some);
            if k < i {
                assert(branch_const(resources, schemas[k], property) != branch_const(
                    resources,
                    schemas[i],
                    property,
                ));
            } else if i < k {
                assert(branch_const(resources, schemas[i], property) != branch_const(
                    resources,
                    schemas[k],
                    property,
                ));
            }
        }
    }
}

/// The discriminator for a property, where the property tells the subschemas apart.
fn discriminator_by(ctx: &Context<'_>, schemas: &[OwnedValue], property: String) -> (found: Option<
    OneOfDiscriminator,
>)
    ensures
        found is Some <==> tells_apart(ctx.resources@, trees_of(schemas@), property@),
        found matches Some(d) ==> d.is_by(ctx.resources@, trees_of(schemas@), property@),
{
    let ghost resources = ctx.resources@;
    let ghost trees = trees_of(schemas@);
    let capacity: usize = if schemas.len() < MAX_CAPACITY {
        schemas.len()
    } else {
        MAX_CAPACITY
    };
    let mut branches = branches_with_capacity(capacity);
    let mut index: usize = 0;
    while index < schemas.len()
        invariant
            index <= schemas.len(),
            resources == ctx.resources@,
            trees == trees_of(schemas@),
            branches_of(branches) == branch_map(resources, trees, property@, index as nat),
            tells_apart(resources, trees.take(index as int), property@),
        decreases schemas.len() - index,
    {
        let ghost taken = trees.take(index as int);
        let ghost next = trees.take(index + 1);
        assert(trees[index as int] == schemas@[index as int]@);
        assert(next[index as int] == trees[index as int]);
        match required_string_const(ctx, &schemas[index], property.as_str()) {
            Some(value) => {
                let ghost text = value@;
                proof {
                    lemma_branch_map(resources, trees, property@, index as nat, text);
                }
                if insert_branch(&mut branches, value, index).is_some() {
                    proof {
                        let k = branch_map(resources, trees, property@, index as nat)[text] as int;
                        assert(taken[k] == trees[k]);
                        assert(branch_const(resources, taken[k], property@) is Some);
                        assert(branch_const(resources, trees[k], property@) == branch_const(
                            resources,
                            trees[index as int],
                            property@,
                        ));
                    }
                    return None;
                }
                proof {
                    assert forall|i: int, j: int| 0 <= i < j < next.len() implies branch_const(
                        resources,
                        #[trigger] next[i],
                        property@,
                    ) != branch_const(resources, #[trigger] next[j], property@) by {
                        assert(next[i] == taken[i]);
                        if j < index {
                            assert(next[j] == taken[j]);
                        } else {
                            assert(branch_const(resources, taken[i], property@) is Some);
                            assert(trees[i] == taken[i]);
                        }
                    }
                    assert forall|i: int| 0 <= i < next.len() implies branch_const(
                        resources,
                        #[trigger] next[i],
                        property@,
                    ) is Some by {
                        if i < index {
                            assert(next[i] == taken[i]);
                        }
                    }
                }
            },
            None => {
                return None;
            },
        }
        index += 1;
    }
    assert(trees.take(index as int) =~= trees);
    Some(OneOfDiscriminator { property, branches })
}

/// The discriminator of some subschemas: by the first property that the first of
/// them requires to be a text and that tells them all apart.
pub fn compile_discriminator(ctx: &Context<'_>, schemas: &[OwnedValue]) -> (found: Option<
    OneOfDiscriminator,
>)
    ensures
        found is Some <==> telling_property(ctx.resources@, trees_of(schemas@)) is Some,
        found matches Some(d) ==> d.is_by(
            ctx.resources@,
            trees_of(schemas@),
            telling_property(ctx.resources@, trees_of(schemas@))->0,
        ),
{
    let ghost resources = ctx.resources@;
    let ghost trees = trees_of(schemas@);
    if schemas.len() == 0 {
        return None;
    }
    assert(trees[0] == schemas@[0]@);
    let first = discriminator_candidates(ctx, &schemas[0])?;
    let ghost properties = pairs_of(first@);
    let mut i: usize = 0;
    assert(properties.skip(0) =~= properties);
    while i < first.len()
        invariant
            i <= first.len(),
            resources == ctx.resources@,
            trees == trees_of(schemas@),
            properties == pairs_of(first@),
            telling_property(resources, trees) == first_telling(
                resources,
                trees,
                properties.skip(i as int),
            ),
        decreases first.len() - i,
    {
        assert(properties.skip(i as int)[0] == properties[i as int]);
        assert(properties.skip(i as int).drop_first() =~= properties.skip(i + 1));
        if let Some(discriminator) = discriminator_by(ctx, schemas, first[i].0.clone()) {
            return Some(discriminator);
        }
        i += 1;
    }
    None
}

} // verus!
