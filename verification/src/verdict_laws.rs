//! Laws of the verdict on an instance: how it follows from the verdicts of the subschemas.

use crate::compiler::Context;
use crate::discriminator::{branch_const, branches_are_in_range, branches_of};
use crate::discriminator_laws::{
    branch_requires_text, branch_text_is_required, requires_some_text, texts_differ,
    texts_differ_where_told_apart,
};
use crate::error::ValidationError;
use crate::instance::InstanceRef;
use crate::one_of::{compiled, exactly_one, item_location, some_accepts, view_of, OneOfValidator};
use crate::one_of_laws::{
    branches_enforce, discriminator_preserves_one_of, enforces_const, telling_property_is_found,
};
use crate::paths::Step;
use crate::single_one_of::{OneOfKeyword, SingleOneOfValidator};
use crate::validator::{SchemaNode, Validate};
use crate::value::{lookup, trees_of, Json, ObjectMap, OwnedValue};
use vstd::prelude::*;

verus! {

/// The places of the schemas that accept an instance.
pub open spec fn accepting<V: Validate>(
    schemas: Seq<SchemaNode<V>>,
    instance: InstanceRef<'_>,
) -> Set<int> {
    Set::new(|i: int| 0 <= i < schemas.len() && schemas[i].validator.accepts(instance))
}

/// There are finitely many accepting schemas.
pub proof fn accepting_is_finite<V: Validate>(
    schemas: Seq<SchemaNode<V>>,
    instance: InstanceRef<'_>,
)
    ensures
        accepting(schemas, instance).finite(),
{
    vstd::set_lib::lemma_int_range(0, schemas.len() as int);
    vstd::set_lib::lemma_set_subset_finite(
        vstd::set_lib::set_int_range(0, schemas.len() as int),
        accepting(schemas, instance),
    );
}

/// Exactly one schema accepts an instance where the set of those that do has one element.
pub proof fn exactly_one_is_one_of_the_accepting<V: Validate>(
    schemas: Seq<SchemaNode<V>>,
    instance: InstanceRef<'_>,
)
    ensures
        exactly_one(schemas, instance) <==> accepting(schemas, instance).len() == 1,
        some_accepts(schemas, instance) <==> accepting(schemas, instance).len() > 0,
{
    let set = accepting(schemas, instance);
    accepting_is_finite(schemas, instance);
    if exactly_one(schemas, instance) {
        let i = choose|i: int|
            0 <= i < schemas.len() && (#[trigger] schemas[i]).accepts(instance) && forall|j: int|
                0 <= j < schemas.len() && j != i ==> !(#[trigger] schemas[j]).accepts(instance);
        assert(set =~= Set::empty().insert(i)) by {
            assert forall|j: int| set.contains(j) implies j == i by {
                assert(schemas[j].accepts(instance));
            }
        }
    }
    if set.len() == 1 {
        let i = set.choose();
        assert(set.contains(i));
        assert(set.remove(i).len() == 0);
        assert forall|j: int| 0 <= j < schemas.len() && j != i implies !(
        #[trigger] schemas[j]).accepts(instance) by {
            if schemas[j].accepts(instance) {
                assert(set.remove(i).contains(j));
                assert(set.remove(i).finite());
                assert(set.remove(i) =~= Set::empty());
            }
        }
        assert(schemas[i].accepts(instance));
    }
    if some_accepts(schemas, instance) {
        let i = choose|i: int| 0 <= i < schemas.len() && (#[trigger] schemas[i]).accepts(instance);
        assert(set.contains(i));
        if set.len() == 0 {
            assert(set =~= Set::empty());
        }
    }
    if set.len() > 0 {
        let i = set.choose();
        assert(set.contains(i));
        assert(schemas[i].accepts(instance));
    }
}

/// Without a branch that a discriminator tells, an instance is accepted exactly where one schema
/// accepts it, and no more than one.
pub proof fn an_instance_without_a_branch_is_accepted_by_exactly_one<V: Validate>(
    validator: OneOfValidator<V>,
    instance: InstanceRef<'_>,
    branch: Option<usize>,
)
    requires
        call_ensures(OneOfValidator::<V>::discriminated_branch, (&validator, instance), branch),
        branch is None,
    ensures
        validator.accepts(instance) <==> accepting(validator.schemas@, instance).len() == 1,
{
    exactly_one_is_one_of_the_accepting(validator.schemas@, instance);
}

/// Without a discriminator there is no branch.
pub proof fn there_is_no_branch_without_a_discriminator<V: Validate>(
    validator: OneOfValidator<V>,
    instance: InstanceRef<'_>,
    branch: Option<usize>,
)
    requires
        call_ensures(OneOfValidator::<V>::discriminated_branch, (&validator, instance), branch),
        validator.discriminator is None,
    ensures
        branch is None,
        validator.accepts(instance) <==> accepting(validator.schemas@, instance).len() == 1,
{
    exactly_one_is_one_of_the_accepting(validator.schemas@, instance);
}

/// With a branch, the verdict is that of the branch.
pub proof fn an_instance_with_a_branch_has_its_verdict<V: Validate>(
    validator: OneOfValidator<V>,
    instance: InstanceRef<'_>,
    branch: Option<usize>,
)
    requires
        validator.wf(),
        call_ensures(OneOfValidator::<V>::discriminated_branch, (&validator, instance), branch),
        branch is Some,
    ensures
        branch->0 < validator.schemas@.len(),
        validator.accepts(instance) == validator.schemas@[branch->0 as int].validator.accepts(
            instance,
        ),
{
    let discriminator = validator.discriminator->0;
    let text = lookup(instance.spec_entries()->0, discriminator.property@)->0.spec_as_str()->0;
    assert(branches_of(discriminator.branches).contains_key(text));
}

/// An instance that no schema accepts is not accepted.
pub proof fn what_no_schema_accepts_is_refused<V: Validate>(
    validator: OneOfValidator<V>,
    instance: InstanceRef<'_>,
)
    requires
        validator.wf(),
        accepting(validator.schemas@, instance).len() == 0,
    ensures
        !validator.accepts(instance),
{
    exactly_one_is_one_of_the_accepting(validator.schemas@, instance);
    if let Some(branch) = validator.spec_branch(instance) {
        let discriminator = validator.discriminator->0;
        let text = lookup(instance.spec_entries()->0, discriminator.property@)->0.spec_as_str()->0;
        assert(branches_of(discriminator.branches).contains_key(text));
        assert(!validator.schemas@[branch as int].accepts(instance));
    }
}

/// A value has no error exactly where one schema accepts it, and no more than one, whatever the
/// discriminator tells.
pub proof fn a_value_has_no_error_where_exactly_one_accepts_it<V: Validate>(
    validator: OneOfValidator<V>,
    value: &OwnedValue,
)
    ensures
        validator.validates(value) <==> accepting(validator.schemas@, view_of(value)).len() == 1,
{
    exactly_one_is_one_of_the_accepting(validator.schemas@, view_of(value));
}

/// The form of the keyword for a single subschema has the verdict of that subschema, and finds
/// no error exactly where it accepts.
pub proof fn the_single_form_agrees_with_its_subschema<V: Validate>(
    validator: SingleOneOfValidator<V>,
    instance: InstanceRef<'_>,
    value: &OwnedValue,
)
    ensures
        validator.accepts(instance) == validator.node.validator.accepts(instance),
        validator.validates(value) == validator.accepts(view_of(value)),
        validator.validates(value) <==> accepting(seq![validator.node], view_of(value)).len() == 1,
        validator.accepts(instance) <==> accepting(seq![validator.node], instance).len() == 1,
{
    let schemas = seq![validator.node];
    assert(schemas[0] == validator.node);
    exactly_one_is_one_of_the_accepting(schemas, view_of(value));
    exactly_one_is_one_of_the_accepting(schemas, instance);
}

/// The errors that the form for a single subschema lists: none exactly where the subschema
/// accepts the value, else one.
pub proof fn the_single_form_lists_an_error_where_it_refuses<V: Validate>(
    validator: SingleOneOfValidator<V>,
    value: &OwnedValue,
    location: &crate::paths::Location,
    tracker: Option<&V::RefTracker>,
    errors: &Vec<ValidationError<'_>>,
)
    requires
        validator.lists(value, location, tracker, errors),
    ensures
        errors@.len() == 0 <==> validator.node.validator.accepts(view_of(value)),
        errors@.len() <= 1,
{
}

/// The subschemas of a keyword, in whichever form it is.
pub open spec fn subschemas<V: Validate>(keyword: OneOfKeyword<V>) -> Seq<SchemaNode<V>> {
    match keyword {
        OneOfKeyword::Single(validator) => seq![validator.node],
        OneOfKeyword::Multiple(validator) => validator.schemas@,
    }
}

/// In either form, a value has no error exactly where one subschema accepts it, and no more than
/// one; and an instance is judged so where no discriminator is in force.
pub proof fn both_forms_mean_exactly_one<V: Validate>(
    keyword: OneOfKeyword<V>,
    instance: InstanceRef<'_>,
    value: &OwnedValue,
)
    ensures
        keyword.validates(value) <==> accepting(subschemas(keyword), view_of(value)).len() == 1,
        (keyword matches OneOfKeyword::Multiple(validator) ==> validator.discriminator is None)
            ==> (keyword.accepts(instance) <==> accepting(subschemas(keyword), instance).len()
            == 1),
{
    exactly_one_is_one_of_the_accepting(subschemas(keyword), view_of(value));
    exactly_one_is_one_of_the_accepting(subschemas(keyword), instance);
    if let OneOfKeyword::Single(validator) = keyword {
        the_single_form_agrees_with_its_subschema(validator, instance, value);
    }
}

/// Each form of the keyword judges as it does on its own.
pub proof fn the_keyword_judges_as_its_form<V: Validate>(
    single: SingleOneOfValidator<V>,
    multiple: OneOfValidator<V>,
    instance: InstanceRef<'_>,
)
    ensures
        OneOfKeyword::Single(single).accepts(instance) == single.accepts(instance),
        OneOfKeyword::Multiple(multiple).accepts(instance) == multiple.accepts(instance),
        OneOfKeyword::Single(single).wf() == single.wf(),
        OneOfKeyword::Multiple(multiple).wf() == multiple.wf(),
{
}

/// Whether a schema accepts no object but those that have a text under a property.
pub open spec fn accepts_only_the_text<V: Validate>(
    schema: SchemaNode<V>,
    property: Seq<char>,
    text: Seq<char>,
) -> bool {
    forall|instance: InstanceRef<'_>| #[trigger]
        schema.accepts(instance) && instance.spec_entries() is Some ==> lookup(
            instance.spec_entries()->0,
            property,
        ) is Some && lookup(instance.spec_entries()->0, property)->0.spec_as_str() == Some(text)
}

/// Whether a schema enforces every text that its subschema requires.
pub open spec fn enforces_texts<V: Validate>(
    schema: SchemaNode<V>,
    resources: Seq<(Seq<char>, Json)>,
    item: Json,
) -> bool {
    forall|property: Seq<char>, text: Seq<char>| #[trigger]
        branch_requires_text(resources, item, property, text) ==> accepts_only_the_text(
            schema,
            property,
            text,
        )
}

/// The compiled keyword means `oneOf`: where each compiled schema enforces the texts that its
/// subschema requires under `const`, an instance is accepted exactly where one schema accepts
/// it, and no more than one, whether or not a discriminator is in force.
pub proof fn a_compiled_keyword_accepts_by_exactly_one<
    'a,
    V: Validate,
    F: Fn(&Context<'_>, &'a OwnedValue) -> Result<SchemaNode<V>, ValidationError<'a>>,
>(
    validator: OneOfValidator<V>,
    compile_node: F,
    resources: &ObjectMap,
    location: Seq<Step>,
    items: Seq<OwnedValue>,
    instance: InstanceRef<'_>,
)
    requires
        validator.is_compiled(compile_node, resources, location, items),
        forall|i: int|
            0 <= i < items.len() ==> enforces_texts(
                #[trigger] validator.schemas@[i],
                resources@,
                items[i]@,
            ),
    ensures
        validator.accepts(instance) <==> accepting(validator.schemas@, instance).len() == 1,
{
    let trees = trees_of(items);
    exactly_one_is_one_of_the_accepting(validator.schemas@, instance);
    if let Some(discriminator) = validator.discriminator {
        let property = discriminator.property@;
        assert forall|i: int| 0 <= i < trees.len() implies enforces_const(
            #[trigger] validator.schemas@[i],
            property,
            branch_const(resources@, trees[i], property),
        ) by {
            assert(trees[i] == items[i]@);
            assert(branch_const(resources@, trees[i], property) is Some);
            let text = branch_const(resources@, trees[i], property)->0;
            branch_text_is_required(resources@, trees[i], property, text);
            assert(enforces_texts(validator.schemas@[i], resources@, items[i]@));
            assert(accepts_only_the_text(validator.schemas@[i], property, text));
        }
        assert(branches_enforce(validator, resources@, trees, property));
        discriminator_preserves_one_of(validator, resources@, trees, property, instance);
    }
}

/// A subschema that requires no text under `const`, whatever else it states, leaves the keyword
/// without a discriminator: every instance is then accepted exactly where one schema accepts it,
/// and no more than one.
pub proof fn a_subschema_without_texts_leaves_exactly_one<
    'a,
    V: Validate,
    F: Fn(&Context<'_>, &'a OwnedValue) -> Result<SchemaNode<V>, ValidationError<'a>>,
>(
    validator: OneOfValidator<V>,
    compile_node: F,
    resources: &ObjectMap,
    location: Seq<Step>,
    items: Seq<OwnedValue>,
    i: int,
    instance: InstanceRef<'_>,
)
    requires
        validator.is_compiled(compile_node, resources, location, items),
        0 <= i < items.len(),
        forall|property: Seq<char>, text: Seq<char>|
            !branch_requires_text(resources@, items[i]@, property, text),
    ensures
        validator.discriminator is None,
        validator.accepts(instance) <==> accepting(validator.schemas@, instance).len() == 1,
{
    let trees = trees_of(items);
    exactly_one_is_one_of_the_accepting(validator.schemas@, instance);
    if let Some(discriminator) = validator.discriminator {
        let property = discriminator.property@;
        texts_differ_where_told_apart(resources@, trees, property);
        assert(trees[i] == items[i]@);
        assert(requires_some_text(resources@, trees[i], property));
    }
}

/// The compiled keyword has a discriminator exactly where some property tells the subschemas
/// apart, and sends an object by the text under such a property: to the subschema that requires
/// that text, and nowhere where none does.
pub proof fn a_compiled_keyword_sends_an_object_by_its_text<
    'a,
    V: Validate,
    F: Fn(&Context<'_>, &'a OwnedValue) -> Result<SchemaNode<V>, ValidationError<'a>>,
>(
    validator: OneOfValidator<V>,
    compile_node: F,
    resources: &ObjectMap,
    location: Seq<Step>,
    items: Seq<OwnedValue>,
    property: Seq<char>,
)
    requires
        validator.is_compiled(compile_node, resources, location, items),
        items.len() > 0,
    ensures
        texts_differ(resources@, trees_of(items), property) ==> validator.discriminator is Some,
        validator.discriminator matches Some(d) ==> texts_differ(
            resources@,
            trees_of(items),
            d.property@,
        ),
        validator.discriminator matches Some(d) ==> forall|i: int, text: Seq<char>|
            0 <= i < items.len() ==> (#[trigger] branch_requires_text(
                resources@,
                items[i]@,
                d.property@,
                text,
            ) <==> branches_of(d.branches).contains_key(text) && branches_of(d.branches)[text]
                == i),
{
    let trees = trees_of(items);
    telling_property_is_found(resources@, trees, property);
    texts_differ_where_told_apart(resources@, trees, property);
    if let Some(d) = validator.discriminator {
        texts_differ_where_told_apart(resources@, trees, d.property@);
        assert(items.len() == validator.schemas.len());
        branches_are_in_range(d, resources@, trees, d.property@);
        assert forall|i: int, text: Seq<char>| 0 <= i < items.len() implies (
        #[trigger] branch_requires_text(resources@, items[i]@, d.property@, text) <==> branches_of(
            d.branches,
        ).contains_key(text) && branches_of(d.branches)[text] == i) by {
            assert(trees[i] == items[i]@);
            branch_text_is_required(resources@, trees[i], d.property@, text);
            assert(branch_const(resources@, trees[i], d.property@) == Some(text) <==> branches_of(
                d.branches,
            ).get(text) == Some(i as usize));
        }
    }
}

/// Each schema of the compiled keyword is what the compiler makes of the item at its place, under
/// the index of that place.
pub proof fn a_compiled_keyword_has_the_schemas_of_its_items<
    'a,
    V: Validate,
    F: Fn(&Context<'_>, &'a OwnedValue) -> Result<SchemaNode<V>, ValidationError<'a>>,
>(
    validator: OneOfValidator<V>,
    compile_node: F,
    resources: &ObjectMap,
    location: Seq<Step>,
    items: Seq<OwnedValue>,
    i: int,
)
    requires
        validator.is_compiled(compile_node, resources, location, items),
        0 <= i < items.len(),
    ensures
        validator.schemas@.len() == items.len(),
        validator.location@ == location.push(Step::Property("oneOf"@)),
        exists|ctx: Context<'_>|
            ctx.location@ == location.push(Step::Property("oneOf"@)).push(Step::Index(i))
                && ctx.resources == resources && #[trigger] call_ensures(
                compile_node,
                (&ctx, &items[i]),
                Ok(validator.schemas@[i]),
            ),
{
    assert(compiled(
        compile_node,
        resources,
        item_location(location, i),
        &items[i],
        Ok(validator.schemas@[i]),
    ));
}

/// The schema of the compiled form for a single subschema is what the compiler makes of that
/// subschema, under the first index.
pub proof fn a_compiled_single_form_has_the_schema_of_its_item<
    'a,
    V: Validate,
    F: Fn(&Context<'_>, &'a OwnedValue) -> Result<SchemaNode<V>, ValidationError<'a>>,
>(
    validator: SingleOneOfValidator<V>,
    compile_node: F,
    resources: &ObjectMap,
    location: Seq<Step>,
    schema: &'a OwnedValue,
)
    requires
        validator.is_compiled(compile_node, resources, location, schema),
    ensures
        validator.location@ == location.push(Step::Property("oneOf"@)),
        exists|ctx: Context<'_>|
            ctx.location@ == location.push(Step::Property("oneOf"@)).push(Step::Index(0))
                && ctx.resources == resources && #[trigger] call_ensures(
                compile_node,
                (&ctx, schema),
                Ok(validator.node),
            ),
{
}

} // verus!
