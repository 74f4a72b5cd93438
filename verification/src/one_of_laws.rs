//! Laws of the `oneOf` keyword.

use crate::discriminator::{
    branch_candidates, branch_const, branches_are_in_range, branches_of, candidates,
    candidates_among, first_telling, required_const, resolved, string_const, tells_apart,
    telling_property, OneOfDiscriminator,
};
use crate::equality::{
    json_equal, keys_unique, lookup_aligned, lookup_distinct, parts_show_tree, same_keys, shows,
};
use crate::error::ValidationError;
use crate::evaluation::{EvaluationNode, EvaluationResult};
use crate::instance::InstanceRef;
use crate::materialize::{last_lookup, last_member_stays, owned_value_is_of_tree};
use crate::one_of::{exactly_one, some_accepts, view_of, OneOfValidator};
use crate::owned::{owned_members, owned_tree};
use crate::paths::Location;
use crate::single_one_of::SingleOneOfValidator;
use crate::validator::{SchemaNode, Validate};
use crate::value::{found_where_listed, keys_distinct, lookup, Json, OwnedValue};
use vstd::prelude::*;

verus! {

/// Whether a schema accepts no object but those whose property is the given text.
pub open spec fn enforces_const<V: Validate>(
    schema: SchemaNode<V>,
    property: Seq<char>,
    text: Option<Seq<char>>,
) -> bool {
    forall|instance: InstanceRef<'_>| #[trigger]
        schema.accepts(instance) && instance.spec_entries() is Some ==> text is Some
            && match lookup(instance.spec_entries()->0, property) {
            Some(value) => value.spec_as_str() == text,
            None => false,
        }
}

/// Whether each schema accepts no object but those whose discriminating property is
/// the text that its subschema requires.
pub open spec fn branches_enforce<V: Validate>(
    validator: OneOfValidator<V>,
    resources: Seq<(Seq<char>, Json)>,
    items: Seq<Json>,
    property: Seq<char>,
) -> bool {
    &&& validator.schemas@.len() == items.len()
    &&& validator.discriminator matches Some(discriminator) ==> {
        &&& discriminator.is_by(resources, items, property)
        &&& forall|i: int|
            0 <= i < items.len() ==> enforces_const(
                #[trigger] validator.schemas@[i],
                property,
                branch_const(resources, items[i], property),
            )
    }
}

/// The discriminator keeps the meaning of `oneOf`: where the schemas enforce the texts
/// by which they are told apart, an instance is accepted exactly where one schema, and
/// no other, accepts it.
pub proof fn discriminator_preserves_one_of<V: Validate>(
    validator: OneOfValidator<V>,
    resources: Seq<(Seq<char>, Json)>,
    items: Seq<Json>,
    property: Seq<char>,
    instance: InstanceRef<'_>,
)
    requires
        validator.wf(),
        branches_enforce(validator, resources, items, property),
    ensures
        validator.accepts(instance) == exactly_one(validator.schemas@, instance),
{
    if let Some(branch) = validator.spec_branch(instance) {
        let schemas = validator.schemas@;
        let discriminator = validator.discriminator->0;
        let text = lookup(instance.spec_entries()->0, property)->0.spec_as_str()->0;
        assert(schemas.len() == validator.schemas.len());
        branches_are_in_range(discriminator, resources, items, property);
        assert(branches_of(discriminator.branches).contains_key(text));
        assert forall|j: int| 0 <= j < schemas.len() && j != branch implies !(
        #[trigger] schemas[j]).accepts(instance) by {
            if schemas[j].accepts(instance) {
                assert(enforces_const(
                    schemas[j],
                    property,
                    branch_const(resources, items[j], property),
                ));
                assert(branch_const(resources, items[j], property) == Some(text));
            }
        }
        assert(schemas[branch as int].accepts(instance) ==> exactly_one(schemas, instance));
    }
}

/// The verdict and the errors agree: where the schemas enforce the texts by which they
/// are told apart, a value is accepted exactly where no error is found in it.
pub proof fn verdict_agrees_with_errors<V: Validate>(
    validator: OneOfValidator<V>,
    resources: Seq<(Seq<char>, Json)>,
    items: Seq<Json>,
    property: Seq<char>,
    value: &OwnedValue,
)
    requires
        validator.wf(),
        branches_enforce(validator, resources, items, property),
    ensures
        validator.accepts(view_of(value)) == validator.validates(value),
{
    discriminator_preserves_one_of(validator, resources, items, property, view_of(value));
}

/// An error of the keyword tells whether no schema accepts the value or two do.
pub proof fn error_tells_none_from_many<V: Validate>(
    validator: OneOfValidator<V>,
    value: &OwnedValue,
    location: &Location,
    tracker: Option<&V::RefTracker>,
    error: &ValidationError<'_>,
)
    requires
        !validator.validates(value),
        validator.reports(value, location, tracker, error),
    ensures
        error.kind is OneOfNotValid <==> !some_accepts(validator.schemas@, view_of(value)),
        error.kind is OneOfMultipleValid <==> exists|i: int, j: int|
            0 <= i < j < validator.schemas@.len() && (#[trigger] validator.schemas@[i]).accepts(
                view_of(value),
            ) && (#[trigger] validator.schemas@[j]).accepts(view_of(value)),
{
    let schemas = validator.schemas@;
    if error.kind is OneOfMultipleValid {
        let i = choose|i: int|
            0 <= i < schemas.len() && (#[trigger] schemas[i]).accepts(view_of(value));
        let j = choose|j: int|
            0 <= j < schemas.len() && j != i && (#[trigger] schemas[j]).accepts(view_of(value));
        assert(schemas[i].accepts(view_of(value)) && schemas[j].accepts(view_of(value)));
        assert(i < j || j < i);
    }
}

/// The form of the keyword for a single subschema means the same as the general form.
pub proof fn single_is_one_of<V: Validate>(
    validator: SingleOneOfValidator<V>,
    instance: InstanceRef<'_>,
)
    ensures
        validator.accepts(instance) == exactly_one(seq![validator.node], instance),
{
    let schemas = seq![validator.node];
    assert(schemas[0] == validator.node);
}

/// The text of the member with the given key, where it is a string.
pub open spec fn member_text(tree: Json, key: Seq<char>) -> Option<Seq<char>> {
    match tree.member(key) {
        Some(value) => value.text(),
        None => None,
    }
}

/// The branch of an instance is told by the text of one member alone.
pub proof fn branch_is_of_text(discriminator: OneOfDiscriminator, view: InstanceRef<'_>)
    requires
        view.spec_is_json(),
    ensures
        discriminator.spec_branch(view) == match member_text(
            view.tree(),
            discriminator.property@,
        ) {
            Some(text) => branches_of(discriminator.branches).get(text),
            None => None,
        },
{
    parts_show_tree(view);
    if let Json::Object(members) = view.tree() {
        let entries = view.spec_entries()->0;
        let k = lookup_aligned(entries, members, discriminator.property@);
        if lookup(entries, discriminator.property@) is Some {
            assert(shows(entries[k].1, members[k].1));
            parts_show_tree(entries[k].1);
        }
    }
}

/// Two views of one tree are of one and the same branch.
pub proof fn branch_is_of_tree(
    discriminator: OneOfDiscriminator,
    a: InstanceRef<'_>,
    b: InstanceRef<'_>,
)
    requires
        a.spec_is_json(),
        b.spec_is_json(),
        a.tree() == b.tree(),
    ensures
        discriminator.spec_branch(a) == discriminator.spec_branch(b),
{
    branch_is_of_text(discriminator, a);
    branch_is_of_text(discriminator, b);
}

/// Equal values have equal texts under a key, whatever the order of their members, where
/// no key occurs twice.
proof fn lemma_equal_member_text(a: Json, b: Json, key: Seq<char>)
    requires
        json_equal(a, b),
        keys_unique(b),
    ensures
        member_text(a, key) == member_text(b, key),
{
    if let (Json::Object(x), Json::Object(y)) = (a, b) {
        same_keys(x, y);
        if lookup(y, key) is Some {
            let i = lookup_aligned(y, y, key);
            assert(y[i].0 == key);
            assert(json_equal(lookup(x, key)->0, y[i].1));
        } else if lookup(x, key) is Some {
            let j = lookup_aligned(x, x, key);
            assert(x[j].0 == key);
        }
    }
}

/// Two views of equal values are of one and the same branch, whatever the order of their
/// members, where no key occurs twice.
pub proof fn branch_respects_equality(
    discriminator: OneOfDiscriminator,
    a: InstanceRef<'_>,
    b: InstanceRef<'_>,
)
    requires
        a.spec_is_json(),
        b.spec_is_json(),
        json_equal(a.tree(), b.tree()),
        keys_unique(b.tree()),
    ensures
        discriminator.spec_branch(a) == discriminator.spec_branch(b),
{
    lemma_equal_member_text(a.tree(), b.tree(), discriminator.property@);
    branch_is_of_text(discriminator, a);
    branch_is_of_text(discriminator, b);
}

/// The last member with a key is the first one, where no key occurs twice.
proof fn lemma_last_is_first<V>(members: Seq<(Seq<char>, V)>, key: Seq<char>)
    requires
        keys_distinct(members),
    ensures
        last_lookup(members, key) == lookup(members, key),
    decreases members.len(),
{
    if members.len() > 0 {
        let rest = members.drop_last();
        let last = members.len() - 1;
        assert forall|i: int, j: int| 0 <= i < j < rest.len() implies #[trigger] rest[i].0
            != #[trigger] rest[j].0 by {
            assert(members[i].0 != members[j].0);
        }
        lemma_last_is_first(rest, key);
        if members[last].0 == key {
            lookup_distinct(members, last);
        } else if lookup(rest, key) is Some {
            let k = lookup_aligned(rest, rest, key);
            assert(members[k] == rest[k]);
            lookup_distinct(members, k);
        } else {
            found_where_listed(rest, key);
            found_where_listed(members, key);
            if lookup(members, key) is Some {
                let i = choose|i: int| 0 <= i < members.len() && (#[trigger] members[i]).0 == key;
                assert(rest[i].0 == key);
            }
        }
    }
}

/// An owned tree has the texts of the tree that it is made from, where no key occurs twice.
proof fn lemma_owned_member_text(tree: Json, key: Seq<char>)
    requires
        keys_unique(tree),
    ensures
        member_text(owned_tree(tree), key) == member_text(tree, key),
{
    if let Json::Object(members) = tree {
        let pairs = owned_members(members);
        assert(pairs.len() == members.len());
        assert forall|i: int, j: int| 0 <= i < j < pairs.len() implies #[trigger] pairs[i].0
            != #[trigger] pairs[j].0 by {
            assert(members[i].0 != members[j].0);
        }
        last_member_stays(pairs, key);
        lemma_last_is_first(pairs, key);
        let k = lookup_aligned(members, pairs, key);
        if lookup(members, key) is Some {
            assert(pairs[k].1 == owned_tree(members[k].1));
        }
    }
}

/// A view and a view of its owned value, whose members are in the order of their keys, are
/// of one and the same branch, where no key occurs twice.
pub proof fn branch_is_of_owned_value(
    discriminator: OneOfDiscriminator,
    view: InstanceRef<'_>,
    owned: OwnedValue,
)
    requires
        view.wf(),
        view.spec_is_json(),
        view.spec_is_ownable(),
        keys_unique(view.tree()),
        owned@ == view.spec_to_owned(),
    ensures
        discriminator.spec_branch(view) == discriminator.spec_branch(view_of(&owned)),
{
    owned_value_is_of_tree(view);
    lemma_owned_member_text(view.tree(), discriminator.property@);
    branch_is_of_text(discriminator, view);
    branch_is_of_text(discriminator, view_of(&owned));
}

/// Whether each schema gives two instances the same verdict.
pub open spec fn schemas_agree<V: Validate>(
    schemas: Seq<SchemaNode<V>>,
    a: InstanceRef<'_>,
    b: InstanceRef<'_>,
) -> bool {
    forall|i: int|
        0 <= i < schemas.len() ==> (#[trigger] schemas[i]).accepts(a) == schemas[i].accepts(b)
}

/// Instances of one branch to which each schema gives the same verdict have one verdict.
proof fn lemma_same_verdict<V: Validate>(
    validator: OneOfValidator<V>,
    a: InstanceRef<'_>,
    b: InstanceRef<'_>,
)
    requires
        validator.wf(),
        validator.spec_branch(a) == validator.spec_branch(b),
        schemas_agree(validator.schemas@, a, b),
    ensures
        validator.accepts(a) == validator.accepts(b),
{
    let schemas = validator.schemas@;
    if let Some(branch) = validator.spec_branch(a) {
        let discriminator = validator.discriminator->0;
        assert(branches_of(discriminator.branches).dom().contains(
            lookup(a.spec_entries()->0, discriminator.property@)->0.spec_as_str()->0,
        ));
        assert(branch < schemas.len());
        assert(schemas[branch as int].accepts(a) == schemas[branch as int].accepts(b));
    }
    if exactly_one(schemas, a) {
        let i = choose|i: int|
            0 <= i < schemas.len() && (#[trigger] schemas[i]).accepts(a) && forall|j: int|
                0 <= j < schemas.len() && j != i ==> !(#[trigger] schemas[j]).accepts(a);
        assert(schemas[i].accepts(b));
    }
    if exactly_one(schemas, b) {
        let i = choose|i: int|
            0 <= i < schemas.len() && (#[trigger] schemas[i]).accepts(b) && forall|j: int|
                0 <= j < schemas.len() && j != i ==> !(#[trigger] schemas[j]).accepts(b);
        assert(schemas[i].accepts(a));
    }
}

/// The verdict does not depend on how an instance is held: where no schema makes a
/// difference between two views of one tree, the keyword makes none.
pub proof fn verdict_is_of_tree<V: Validate>(
    validator: OneOfValidator<V>,
    a: InstanceRef<'_>,
    b: InstanceRef<'_>,
)
    requires
        validator.wf(),
        a.spec_is_json(),
        b.spec_is_json(),
        a.tree() == b.tree(),
        schemas_agree(validator.schemas@, a, b),
    ensures
        validator.accepts(a) == validator.accepts(b),
{
    if let Some(discriminator) = validator.discriminator {
        branch_is_of_tree(discriminator, a, b);
    }
    lemma_same_verdict(validator, a, b);
}

/// The verdict does not depend on the order of members: where no schema makes a difference
/// between two views of equal values, and no key occurs twice, the keyword makes none.
pub proof fn verdict_respects_equality<V: Validate>(
    validator: OneOfValidator<V>,
    a: InstanceRef<'_>,
    b: InstanceRef<'_>,
)
    requires
        validator.wf(),
        a.spec_is_json(),
        b.spec_is_json(),
        json_equal(a.tree(), b.tree()),
        keys_unique(b.tree()),
        schemas_agree(validator.schemas@, a, b),
    ensures
        validator.accepts(a) == validator.accepts(b),
{
    if let Some(discriminator) = validator.discriminator {
        branch_respects_equality(discriminator, a, b);
    }
    lemma_same_verdict(validator, a, b);
}

/// A view has the verdict of its owned value, where no schema makes a difference between
/// the two and no key occurs twice.
pub proof fn verdict_is_of_owned_value<V: Validate>(
    validator: OneOfValidator<V>,
    view: InstanceRef<'_>,
    owned: OwnedValue,
)
    requires
        validator.wf(),
        view.wf(),
        view.spec_is_json(),
        view.spec_is_ownable(),
        keys_unique(view.tree()),
        owned@ == view.spec_to_owned(),
        schemas_agree(validator.schemas@, view, view_of(&owned)),
    ensures
        validator.accepts(view) == validator.accepts(view_of(&owned)),
{
    if let Some(discriminator) = validator.discriminator {
        branch_is_of_owned_value(discriminator, view, owned);
    }
    lemma_same_verdict(validator, view, view_of(&owned));
}

/// The candidates are the properties that a list names and that are stated to be a text,
/// each with that text.
pub proof fn candidates_are_named_texts(
    names: Seq<Json>,
    properties: Json,
    property: Seq<char>,
    text: Seq<char>,
)
    ensures
        candidates_among(names, properties).contains((property, text)) <==> names.contains(
            Json::Str(property),
        ) && string_const(properties, property) == Some(text),
    decreases names.len(),
{
    let all = candidates_among(names, properties);
    let pair = (property, text);
    if names.len() > 0 {
        let rest = names.drop_last();
        let before = candidates_among(rest, properties);
        candidates_are_named_texts(rest, properties, property, text);
        if all.contains(pair) {
            let k = choose|k: int| 0 <= k < all.len() && all[k] == pair;
            if k < before.len() {
                assert(before[k] == pair);
                let i = choose|i: int| 0 <= i < rest.len() && rest[i] == Json::Str(property);
                assert(names[i] == Json::Str(property));
            } else {
                assert(names[names.len() - 1] == Json::Str(property));
            }
        }
        if names.contains(Json::Str(property)) && string_const(properties, property) == Some(text) {
            if names.last() == Json::Str(property) {
                assert(all[all.len() - 1] == pair);
            } else {
                let i = choose|i: int| 0 <= i < names.len() && names[i] == Json::Str(property);
                assert(rest[i] == names[i]);
                let k = choose|k: int| 0 <= k < before.len() && before[k] == pair;
                assert(all[k] == before[k]);
            }
        }
    }
}

/// A subschema, or what it refers to, requires a property to be a text exactly where that
/// property is one of its candidates, with that text.
pub proof fn const_is_required_where_listed(
    resources: Seq<(Seq<char>, Json)>,
    schema: Json,
    property: Seq<char>,
    text: Seq<char>,
)
    ensures
        branch_const(resources, schema, property) == Some(text) <==> {
            &&& branch_candidates(resources, schema) is Some
            &&& branch_candidates(resources, schema)->0.contains((property, text))
        },
{
    if let Some(target) = resolved(resources, schema) {
        if let (Some(Json::Array(names)), Some(properties)) = (
            target.member("required"@),
            target.member("properties"@),
        ) {
            candidates_are_named_texts(names, properties, property, text);
        }
    }
}

/// A reference is followed once, and nothing beside it counts: what it leads to is taken
/// as it stands, and where it leads nowhere there is no text and no candidate.
pub proof fn reference_is_followed_once(
    resources: Seq<(Seq<char>, Json)>,
    schema: Json,
    reference: Seq<char>,
    property: Seq<char>,
)
    requires
        schema.member("$ref"@) == Some(Json::Str(reference)),
    ensures
        match lookup(resources, reference) {
            Some(target) => branch_const(resources, schema, property) == required_const(
                target,
                property,
            ) && branch_candidates(resources, schema) == candidates(target),
            None => branch_const(resources, schema, property) is None && branch_candidates(
                resources,
                schema,
            ) is None,
        },
{
}

/// The first property that tells the subschemas apart does so, and there is one where
/// any of the properties does.
proof fn lemma_first_telling(
    resources: Seq<(Seq<char>, Json)>,
    schemas: Seq<Json>,
    properties: Seq<(Seq<char>, Seq<char>)>,
)
    ensures
        first_telling(resources, schemas, properties) matches Some(p) ==> tells_apart(
            resources,
            schemas,
            p,
        ),
        forall|k: int|
            0 <= k < properties.len() && tells_apart(
                resources,
                schemas,
                (#[trigger] properties[k]).0,
            ) ==> first_telling(resources, schemas, properties) is Some,
    decreases properties.len(),
{
    if properties.len() > 0 {
        let rest = properties.drop_first();
        lemma_first_telling(resources, schemas, rest);
        assert forall|k: int|
            0 <= k < properties.len() && tells_apart(
                resources,
                schemas,
                (#[trigger] properties[k]).0,
            ) implies first_telling(resources, schemas, properties) is Some by {
            if k > 0 {
                assert(rest[k - 1] == properties[k]);
            }
        }
    }
}

/// The subschemas are told apart by a property where there is one that does so, and by
/// none else.
pub proof fn telling_property_is_found(
    resources: Seq<(Seq<char>, Json)>,
    schemas: Seq<Json>,
    property: Seq<char>,
)
    requires
        schemas.len() > 0,
    ensures
        tells_apart(resources, schemas, property) ==> telling_property(
            resources,
            schemas,
        ) is Some,
        telling_property(resources, schemas) matches Some(p) ==> tells_apart(
            resources,
            schemas,
            p,
        ),
{
    if let Some(properties) = branch_candidates(resources, schemas[0]) {
        lemma_first_telling(resources, schemas, properties);
    }
    if tells_apart(resources, schemas, property) {
        assert(branch_const(resources, schemas[0], property) is Some);
        let text = branch_const(resources, schemas[0], property)->0;
        const_is_required_where_listed(resources, schemas[0], property, text);
        let found = branch_candidates(resources, schemas[0])->0;
        let k = choose|k: int| 0 <= k < found.len() && found[k] == (property, text);
        assert(tells_apart(resources, schemas, found[k].0));
    }
}

/// Whether the evaluations of a schema are as valid as its verdict.
pub open spec fn evaluations_agree<V: Validate>(
    schema: SchemaNode<V>,
    value: &OwnedValue,
    location: &Location,
    tracker: Option<&V::RefTracker>,
) -> bool {
    forall|node: EvaluationNode| #[trigger]
        schema.evaluates(value, location, tracker, node) ==> node.valid == schema.accepts(
            view_of(value),
        )
}

/// An evaluation is valid exactly where one schema, and no other, accepts the value,
/// where the evaluations of the schemas agree with their verdicts.
pub proof fn evaluation_agrees_with_verdict<V: Validate>(
    validator: OneOfValidator<V>,
    value: &OwnedValue,
    location: &Location,
    tracker: Option<&V::RefTracker>,
    result: &EvaluationResult,
)
    requires
        validator.evaluates(value, location, tracker, result),
        forall|i: int|
            0 <= i < validator.schemas@.len() ==> evaluations_agree(
                #[trigger] validator.schemas@[i],
                value,
                location,
                tracker,
            ),
    ensures
        *result is Valid <==> validator.validates(value),
{
    let schemas = validator.schemas@;
    if exactly_one(schemas, view_of(value)) {
        assert(some_accepts(schemas, view_of(value)));
        let (i, child) = choose|i: int, child: EvaluationNode|
            0 <= i < schemas.len() && schemas[i].accepts(view_of(value))
                && #[trigger] schemas[i].evaluates(value, location, tracker, child)
                && result.wraps(child);
        assert(evaluations_agree(schemas[i], value, location, tracker));
        assert(child.valid);
    }
}

} // verus!
