//! Laws of the discriminator: which texts count, which property is taken, and where an
//! instance is sent.

use crate::compiler::Context;
use crate::discriminator::{
    branch_const, branches_are_in_range, branches_of, candidates, candidates_among,
    compile_discriminator, discriminator_candidates, discriminator_candidates_from_schema,
    first_telling, pairs_of, required_string_const, required_string_const_from_schema, tells_apart,
    OneOfDiscriminator,
};
use crate::instance::InstanceRef;
use crate::object::ObjectRef;
use crate::one_of_laws::telling_property_is_found;
use crate::value::{lookup, trees_of, Json, OwnedValue};
use vstd::prelude::*;

verus! {

/// Whether a schema lists a property under `required`, and states it under `properties` with a
/// `const` that is a text.
pub open spec fn requires_text(schema: Json, property: Seq<char>, text: Seq<char>) -> bool {
    &&& schema.member("required"@) is Some
    &&& schema.member("required"@)->0 is Array
    &&& schema.member("required"@)->0->Array_0.contains(Json::Str(property))
    &&& schema.member("properties"@) is Some
    &&& schema.member("properties"@)->0.member(property) is Some
    &&& schema.member("properties"@)->0.member(property)->0.member("const"@) == Some(
        Json::Str(text),
    )
}

/// Whether a subschema requires a property to be a text: the schema that its `$ref` leads to,
/// where it has one that is a text, else the subschema itself.
pub open spec fn branch_requires_text(
    resources: Seq<(Seq<char>, Json)>,
    schema: Json,
    property: Seq<char>,
    text: Seq<char>,
) -> bool {
    if schema.member("$ref"@) is Some && schema.member("$ref"@)->0 is Str {
        lookup(resources, schema.member("$ref"@)->0->Str_0) matches Some(target) && requires_text(
            target,
            property,
            text,
        )
    } else {
        requires_text(schema, property, text)
    }
}

/// Whether a subschema requires a property to be some text.
pub open spec fn requires_some_text(
    resources: Seq<(Seq<char>, Json)>,
    schema: Json,
    property: Seq<char>,
) -> bool {
    exists|text: Seq<char>| branch_requires_text(resources, schema, property, text)
}

/// Whether each of some subschemas requires a property to be a text, and no two of them the
/// same text.
pub open spec fn texts_differ(
    resources: Seq<(Seq<char>, Json)>,
    schemas: Seq<Json>,
    property: Seq<char>,
) -> bool {
    &&& forall|i: int|
        0 <= i < schemas.len() ==> requires_some_text(resources, #[trigger] schemas[i], property)
    &&& forall|i: int, j: int, text: Seq<char>|
        0 <= i < j < schemas.len() && #[trigger] branch_requires_text(
            resources,
            schemas[i],
            property,
            text,
        ) ==> !#[trigger] branch_requires_text(resources, schemas[j], property, text)
}

/// A text is required of a property exactly where the property is listed as required and the
/// text is stated under the key `const`: no other member of the schema makes one.
pub proof fn a_required_text_is_a_required_const(
    schema: &OwnedValue,
    property: &str,
    found: Option<String>,
    text: Seq<char>,
)
    requires
        call_ensures(required_string_const_from_schema, (schema, property), found),
    ensures
        found is Some && found->0@ == text <==> requires_text(schema@, property@, text),
{
}

/// What a schema states of a property beside its `const` does not count: two schemas that list
/// the same properties as required, and state the same `const` of a property, require the same
/// text of it.
pub proof fn only_the_const_counts(
    a: &OwnedValue,
    b: &OwnedValue,
    property: &str,
    x: Option<String>,
    y: Option<String>,
)
    requires
        a@.member("required"@) == b@.member("required"@),
        a@.member("properties"@) is Some,
        b@.member("properties"@) is Some,
        a@.member("properties"@)->0.member(property@) is Some,
        b@.member("properties"@)->0.member(property@) is Some,
        a@.member("properties"@)->0.member(property@)->0.member("const"@) == b@.member(
            "properties"@,
        )->0.member(property@)->0.member("const"@),
        call_ensures(required_string_const_from_schema, (a, property), x),
        call_ensures(required_string_const_from_schema, (b, property), y),
    ensures
        x is Some <==> y is Some,
        x is Some ==> x->0@ == y->0@,
{
}

/// A property without a `const` has no text, whatever else is stated of it.
pub proof fn without_a_const_there_is_no_text(
    schema: &OwnedValue,
    property: &str,
    found: Option<String>,
)
    requires
        call_ensures(required_string_const_from_schema, (schema, property), found),
        schema@.member("properties"@) matches Some(properties) && properties.member(
            property@,
        ) matches Some(stated) ==> stated.member("const"@) is None,
    ensures
        found is None,
{
}

/// The text that counts for a subschema is the one that it requires under `const`.
pub proof fn branch_text_is_required(
    resources: Seq<(Seq<char>, Json)>,
    schema: Json,
    property: Seq<char>,
    text: Seq<char>,
)
    ensures
        branch_const(resources, schema, property) == Some(text) <==> branch_requires_text(
            resources,
            schema,
            property,
            text,
        ),
{
}

/// A subschema that refers to another requires what the other requires, and nothing where the
/// reference leads nowhere; any other subschema requires what it states itself.
pub proof fn a_reference_stands_for_what_it_leads_to(
    ctx: &Context<'_>,
    schema: &OwnedValue,
    property: &str,
    found: Option<String>,
    text: Seq<char>,
)
    requires
        call_ensures(required_string_const, (ctx, schema, property), found),
    ensures
        found is Some && found->0@ == text <==> branch_requires_text(
            ctx.resources@,
            schema@,
            property@,
            text,
        ),
{
    branch_text_is_required(ctx.resources@, schema@, property@, text);
}

/// The candidates that a list of names gives are at places of these names, in their order.
proof fn lemma_candidates_are_in_order(names: Seq<Json>, properties: Json, k: int, l: int)
    requires
        0 <= k < l < candidates_among(names, properties).len(),
    ensures
        exists|a: int, b: int|
            0 <= a < b < names.len() && #[trigger] names[a] == Json::Str(
                candidates_among(names, properties)[k].0,
            ) && #[trigger] names[b] == Json::Str(candidates_among(names, properties)[l].0),
    decreases names.len(),
{
    let all = candidates_among(names, properties);
    if names.len() > 0 {
        let rest = names.drop_last();
        let before = candidates_among(rest, properties);
        if l < before.len() {
            lemma_candidates_are_in_order(rest, properties, k, l);
            let (a, b) = choose|a: int, b: int|
                0 <= a < b < rest.len() && #[trigger] rest[a] == Json::Str(before[k].0)
                    && #[trigger] rest[b] == Json::Str(before[l].0);
            assert(all[k] == before[k] && all[l] == before[l]);
            assert(names[a] == rest[a] && names[b] == rest[b]);
        } else {
            assert(all[k] == before[k]);
            lemma_candidate_is_named(rest, properties, k);
            let a = choose|a: int| 0 <= a < rest.len() && rest[a] == Json::Str(before[k].0);
            assert(names[a] == rest[a]);
            assert(names[names.len() - 1] == Json::Str(all[l].0));
        }
    }
}

/// A candidate is one of the names.
proof fn lemma_candidate_is_named(names: Seq<Json>, properties: Json, k: int)
    requires
        0 <= k < candidates_among(names, properties).len(),
    ensures
        names.contains(Json::Str(candidates_among(names, properties)[k].0)),
    decreases names.len(),
{
    if names.len() > 0 {
        let rest = names.drop_last();
        let all = candidates_among(names, properties);
        let before = candidates_among(rest, properties);
        if k < before.len() {
            lemma_candidate_is_named(rest, properties, k);
            assert(all[k] == before[k]);
            let a = choose|a: int| 0 <= a < rest.len() && rest[a] == Json::Str(before[k].0);
            assert(names[a] == rest[a]);
        } else {
            assert(names[names.len() - 1] == Json::Str(all[k].0));
        }
    }
}

/// The candidates of a schema are the properties of which it requires a text, each with that
/// text, in the order in which they are listed as required. There are none to tell where no
/// list of required properties is stated, or no properties are.
pub proof fn candidates_are_the_required_texts(
    schema: &OwnedValue,
    found: Option<Vec<(String, String)>>,
    property: Seq<char>,
    text: Seq<char>,
)
    requires
        call_ensures(discriminator_candidates_from_schema, (schema,), found),
    ensures
        found is None <==> !(schema@.member("required"@) is Some && schema@.member(
            "required"@,
        )->0 is Array && schema@.member("properties"@) is Some && schema@.member(
            "properties"@,
        )->0 is Object),
        requires_text(schema@, property, text) <==> found is Some && exists|k: int|
            0 <= k < found->0@.len() && (#[trigger] found->0@[k]).0@ == property
                && found->0@[k].1@ == text,
{
    if found is Some {
        let pairs = found->0@;
        let names = schema@.member("required"@)->0->Array_0;
        let properties = schema@.member("properties"@)->0;
        let all = candidates_among(names, properties);
        assert(pairs_of(pairs) == all);
        crate::one_of_laws::candidates_are_named_texts(names, properties, property, text);
        if requires_text(schema@, property, text) {
            let k = choose|k: int| 0 <= k < all.len() && all[k] == (property, text);
            assert(pairs[k].0@ == property);
        }
        if exists|k: int|
            0 <= k < pairs.len() && (#[trigger] pairs[k]).0@ == property && pairs[k].1@ == text {
            let k = choose|k: int|
                0 <= k < pairs.len() && (#[trigger] pairs[k]).0@ == property && pairs[k].1@ == text;
            assert(all[k] == (property, text));
        }
    }
}

/// The candidates of a schema are in the order in which they are listed as required.
pub proof fn candidates_are_in_the_order_of_the_names(
    schema: &OwnedValue,
    found: Option<Vec<(String, String)>>,
    names: Seq<Json>,
    k: int,
    l: int,
)
    requires
        call_ensures(discriminator_candidates_from_schema, (schema,), found),
        found is Some,
        schema@.member("required"@) == Some(Json::Array(names)),
        0 <= k < l < found->0@.len(),
    ensures
        exists|a: int, b: int|
            0 <= a < b < names.len() && #[trigger] names[a] == Json::Str(found->0@[k].0@)
                && #[trigger] names[b] == Json::Str(found->0@[l].0@),
{
    let pairs = found->0@;
    let properties = schema@.member("properties"@)->0;
    let all = candidates_among(names, properties);
    assert(pairs_of(pairs) == all);
    lemma_candidates_are_in_order(names, properties, k, l);
    assert(all[k].0 == pairs[k].0@ && all[l].0 == pairs[l].0@);
}

/// A subschema that refers to another has the candidates of the other, and none where the
/// reference leads nowhere; any other subschema has its own.
pub proof fn a_reference_has_the_candidates_of_what_it_leads_to(
    ctx: &Context<'_>,
    schema: &OwnedValue,
    target: &OwnedValue,
    found: Option<Vec<(String, String)>>,
    own: Option<Vec<(String, String)>>,
)
    requires
        call_ensures(discriminator_candidates, (ctx, schema), found),
        call_ensures(discriminator_candidates_from_schema, (target,), own),
    ensures
        schema@.member("$ref"@) matches Some(Json::Str(reference)) ==> match lookup(
            ctx.resources@,
            reference,
        ) {
            Some(tree) => tree == target@ ==> (found is Some <==> own is Some) && (found is Some
                ==> pairs_of(found->0@) == pairs_of(own->0@)),
            None => found is None,
        },
        !(schema@.member("$ref"@) is Some && schema@.member("$ref"@)->0 is Str) && schema@
            == target@ ==> (found is Some <==> own is Some) && (found is Some ==> pairs_of(
            found->0@,
        ) == pairs_of(own->0@)),
{
}

/// A property tells subschemas apart where each requires it to be a text of its own.
pub proof fn texts_differ_where_told_apart(
    resources: Seq<(Seq<char>, Json)>,
    schemas: Seq<Json>,
    property: Seq<char>,
)
    ensures
        tells_apart(resources, schemas, property) <==> texts_differ(resources, schemas, property),
{
    assert forall|i: int, text: Seq<char>|
        #![trigger branch_requires_text(resources, schemas[i], property, text)]
        0 <= i < schemas.len() implies (branch_const(resources, schemas[i], property) == Some(text)
        <==> branch_requires_text(resources, schemas[i], property, text)) by {
        branch_text_is_required(resources, schemas[i], property, text);
    }
    if tells_apart(resources, schemas, property) {
        assert forall|i: int| 0 <= i < schemas.len() implies requires_some_text(
            resources,
            #[trigger] schemas[i],
            property,
        ) by {
            let text = branch_const(resources, schemas[i], property)->0;
            assert(branch_requires_text(resources, schemas[i], property, text));
        }
        assert forall|i: int, j: int, text: Seq<char>|
            0 <= i < j < schemas.len() && #[trigger] branch_requires_text(
                resources,
                schemas[i],
                property,
                text,
            ) implies !#[trigger] branch_requires_text(
            resources,
            schemas[j],
            property,
            text,
        ) by {
            assert(branch_const(resources, schemas[i], property) != branch_const(
                resources,
                schemas[j],
                property,
            ));
        }
    }
    if texts_differ(resources, schemas, property) {
        assert forall|i: int| 0 <= i < schemas.len() implies branch_const(
            resources,
            #[trigger] schemas[i],
            property,
        ) is Some by {
            assert(requires_some_text(resources, schemas[i], property));
            let text = choose|text: Seq<char>|
                branch_requires_text(resources, schemas[i], property, text);
            assert(branch_requires_text(resources, schemas[i], property, text));
        }
        assert forall|i: int, j: int| 0 <= i < j < schemas.len() implies branch_const(
            resources,
            #[trigger] schemas[i],
            property,
        ) != branch_const(resources, #[trigger] schemas[j], property) by {
            let text = branch_const(resources, schemas[i], property)->0;
            assert(branch_requires_text(resources, schemas[i], property, text));
            assert(!branch_requires_text(resources, schemas[j], property, text));
        }
    }
}

/// There is a discriminator exactly where some property tells all the subschemas apart: each
/// requires it to be a text of its own. It is by such a property.
pub proof fn a_discriminator_is_by_a_property_that_tells_apart(
    ctx: &Context<'_>,
    schemas: &[OwnedValue],
    found: Option<OneOfDiscriminator>,
    property: Seq<char>,
)
    requires
        call_ensures(compile_discriminator, (ctx, schemas), found),
    ensures
        schemas@.len() > 0 && texts_differ(ctx.resources@, trees_of(schemas@), property)
            ==> found is Some,
        found matches Some(d) ==> schemas@.len() > 0 && texts_differ(
            ctx.resources@,
            trees_of(schemas@),
            d.property@,
        ),
{
    let trees = trees_of(schemas@);
    if schemas@.len() > 0 {
        telling_property_is_found(ctx.resources@, trees, property);
        texts_differ_where_told_apart(ctx.resources@, trees, property);
        if found is Some {
            texts_differ_where_told_apart(ctx.resources@, trees, found->0.property@);
        }
    }
}

/// Where one subschema requires no text of any property, there is no discriminator.
pub proof fn a_subschema_without_texts_rules_out_a_discriminator(
    ctx: &Context<'_>,
    schemas: &[OwnedValue],
    found: Option<OneOfDiscriminator>,
    i: int,
)
    requires
        call_ensures(compile_discriminator, (ctx, schemas), found),
        0 <= i < schemas@.len(),
        forall|property: Seq<char>, text: Seq<char>|
            !branch_requires_text(ctx.resources@, schemas@[i]@, property, text),
    ensures
        found is None,
{
    if found is Some {
        a_discriminator_is_by_a_property_that_tells_apart(
            ctx,
            schemas,
            found,
            found->0.property@,
        );
        assert(trees_of(schemas@)[i] == schemas@[i]@);
    }
}

/// A discriminator sends each text that a subschema requires to that subschema, and no other
/// text anywhere.
pub proof fn a_text_leads_to_the_subschema_that_requires_it(
    ctx: &Context<'_>,
    schemas: &[OwnedValue],
    found: Option<OneOfDiscriminator>,
    text: Seq<char>,
)
    requires
        call_ensures(compile_discriminator, (ctx, schemas), found),
        found is Some,
    ensures
        branches_of(found->0.branches).contains_key(text) ==> 0 <= branches_of(
            found->0.branches,
        )[text] < schemas@.len() && branch_requires_text(
            ctx.resources@,
            schemas@[branches_of(found->0.branches)[text] as int]@,
            found->0.property@,
            text,
        ),
        forall|i: int|
            0 <= i < schemas@.len() && branch_requires_text(
                ctx.resources@,
                (#[trigger] schemas@[i])@,
                found->0.property@,
                text,
            ) ==> branches_of(found->0.branches).contains_key(text) && branches_of(
                found->0.branches,
            )[text] == i,
{
    let trees = trees_of(schemas@);
    let d = found->0;
    let map = branches_of(d.branches);
    assert(schemas@.len() == schemas.len());
    branches_are_in_range(d, ctx.resources@, trees, d.property@);
    if map.contains_key(text) {
        let i = map[text] as int;
        assert(map.get(text) == Some(i as usize));
        assert(trees[i] == schemas@[i]@);
        assert(branch_const(ctx.resources@, trees[i], d.property@) == Some(text));
        branch_text_is_required(ctx.resources@, trees[i], d.property@, text);
    }
    assert forall|i: int|
        0 <= i < schemas@.len() && branch_requires_text(
            ctx.resources@,
            (#[trigger] schemas@[i])@,
            d.property@,
            text,
        ) implies map.contains_key(text) && map[text] == i by {
        assert(trees[i] == schemas@[i]@);
        branch_text_is_required(ctx.resources@, trees[i], d.property@, text);
        assert(map.get(text) == Some(i as usize));
    }
}

proof fn lemma_first_telling_is_first(
    resources: Seq<(Seq<char>, Json)>,
    schemas: Seq<Json>,
    properties: Seq<(Seq<char>, Seq<char>)>,
) -> (k: int)
    requires
        first_telling(resources, schemas, properties) is Some,
    ensures
        0 <= k < properties.len(),
        properties[k].0 == first_telling(resources, schemas, properties)->0,
        forall|i: int|
            0 <= i < k ==> !tells_apart(resources, schemas, (#[trigger] properties[i]).0),
    decreases properties.len(),
{
    if tells_apart(resources, schemas, properties[0].0) {
        0
    } else {
        let rest = properties.drop_first();
        let k = lemma_first_telling_is_first(resources, schemas, rest);
        assert forall|i: int| 0 <= i < k + 1 implies !tells_apart(
            resources,
            schemas,
            (#[trigger] properties[i]).0,
        ) by {
            if i > 0 {
                assert(rest[i - 1] == properties[i]);
            }
        }
        k + 1
    }
}

/// Of several properties that tell the subschemas apart, the discriminator is by the one that
/// comes first among the candidates of the first subschema.
pub proof fn the_first_candidate_that_tells_apart_is_taken(
    ctx: &Context<'_>,
    schemas: &[OwnedValue],
    found: Option<OneOfDiscriminator>,
    first: Option<Vec<(String, String)>>,
)
    requires
        call_ensures(compile_discriminator, (ctx, schemas), found),
        found is Some,
        schemas@.len() > 0,
        call_ensures(discriminator_candidates, (ctx, &schemas@[0]), first),
    ensures
        first is Some,
        exists|k: int|
            {
                &&& 0 <= k < first->0@.len()
                &&& (#[trigger] first->0@[k]).0@ == found->0.property@
                &&& forall|i: int|
                    0 <= i < k ==> !texts_differ(
                        ctx.resources@,
                        trees_of(schemas@),
                        (#[trigger] first->0@[i]).0@,
                    )
            },
{
    let trees = trees_of(schemas@);
    assert(trees[0] == schemas@[0]@);
    let pairs = first->0@;
    let properties = pairs_of(pairs);
    let k = lemma_first_telling_is_first(ctx.resources@, trees, properties);
    assert(properties[k].0 == pairs[k].0@);
    assert forall|i: int| 0 <= i < k implies !texts_differ(
        ctx.resources@,
        trees,
        (#[trigger] pairs[i]).0@,
    ) by {
        assert(properties[i].0 == pairs[i].0@);
        texts_differ_where_told_apart(ctx.resources@, trees, pairs[i].0@);
    }
    assert(pairs[k].0@ == found->0.property@);
}

/// An instance is sent to a branch exactly where it is an object whose property is a text that
/// leads there.
pub proof fn an_instance_is_sent_by_the_text_of_its_property(
    discriminator: OneOfDiscriminator,
    instance: InstanceRef<'_>,
    property: &str,
    object: Option<ObjectRef<'_>>,
    index: Option<usize>,
)
    requires
        property@ == discriminator.property@,
        call_ensures(InstanceRef::as_object, (instance,), object),
        call_ensures(OneOfDiscriminator::branch, (&discriminator, instance), index),
    ensures
        object is None ==> index is None,
        object matches Some(o) ==> forall|value: Option<InstanceRef<'_>>| #[trigger]
            call_ensures(ObjectRef::get, (o, property), value) ==> match value {
                Some(v) => forall|text: Option<&str>| #[trigger]
                    call_ensures(InstanceRef::as_str, (v,), text) ==> match text {
                        Some(t) => index == branches_of(discriminator.branches).get(t@),
                        None => index is None,
                    },
                None => index is None,
            },
{
}

} // verus!
