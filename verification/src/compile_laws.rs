//! Laws of the compilation of the keyword.

use crate::compiler::Context;
use crate::discriminator::branches_of;
use crate::discriminator_laws::{branch_requires_text, texts_differ};
use crate::error::{JsonType, ValidationError, ValidationErrorKind};
use crate::one_of::{compiled, compiles, item_location, OneOfValidator};
use crate::paths::Step;
use crate::single_one_of::{compile, OneOfKeyword};
use crate::validator::{SchemaNode, Validate};
use crate::value::{trees_of, ObjectMap, OwnedValue};
use crate::verdict_laws::{
    a_compiled_keyword_has_the_schemas_of_its_items, a_compiled_keyword_sends_an_object_by_its_text,
    subschemas,
};
use vstd::prelude::*;

verus! {

/// Whether a compiler gives a result for the item at an index of a keyword, at the place of that
/// item.
pub open spec fn is_compiled_to<
    'a,
    V: Validate,
    F: Fn(&Context<'_>, &'a OwnedValue) -> Result<SchemaNode<V>, ValidationError<'a>>,
>(
    compile_node: F,
    ctx: &Context<'_>,
    item: &'a OwnedValue,
    index: int,
    result: Result<SchemaNode<V>, ValidationError<'a>>,
) -> bool {
    exists|inner: Context<'_>|
        inner.location@ == ctx.location@.push(Step::Property("oneOf"@)).push(Step::Index(index))
            && inner.resources == ctx.resources && #[trigger] call_ensures(
            compile_node,
            (&inner, item),
            result,
        )
}

/// Whether a compiler gives some subschema for the item at an index of a keyword.
pub open spec fn can_be_compiled<
    'a,
    V: Validate,
    F: Fn(&Context<'_>, &'a OwnedValue) -> Result<SchemaNode<V>, ValidationError<'a>>,
>(compile_node: F, ctx: &Context<'_>, item: &'a OwnedValue, index: int) -> bool {
    exists|node: SchemaNode<V>|
        is_compiled_to::<V, F>(compile_node, ctx, item, index, Ok(node))
}

/// The keyword is always compiled or refused, never passed over. What is no array is refused
/// with an error that says that an array is expected, names the keyword, and holds the schema.
pub proof fn what_is_no_array_is_refused<
    'a,
    V: Validate,
    F: Fn(&Context<'_>, &'a OwnedValue) -> Result<SchemaNode<V>, ValidationError<'a>>,
>(
    ctx: &Context<'_>,
    parent: &'a ObjectMap,
    schema: &'a OwnedValue,
    compile_node: F,
    result: Option<Result<OneOfKeyword<V>, ValidationError<'a>>>,
)
    requires
        call_ensures(compile::<V, F>, (ctx, parent, schema, compile_node), result),
    ensures
        result is Some,
        result->0 is Ok ==> *schema is Array,
        result->0 matches Err(error) ==> !(*schema is Array) ==> {
            &&& error.kind == (ValidationErrorKind::Type { expected: JsonType::Array })
            &&& error.schema_path@ == ctx.location@.push(Step::Property("oneOf"@))
            &&& error.evaluation_path@ == ctx.location@.push(Step::Property("oneOf"@))
            &&& error.instance_path@ == Seq::<Step>::empty()
            &&& *error.instance == *schema
        },
{
}

/// A compiled keyword has one subschema for each item: what the compiler gives for that item at
/// its place. It is in the form for a single subschema exactly where there is one item.
pub proof fn each_item_is_compiled_at_its_place<
    'a,
    V: Validate,
    F: Fn(&Context<'_>, &'a OwnedValue) -> Result<SchemaNode<V>, ValidationError<'a>>,
>(
    ctx: &Context<'_>,
    parent: &'a ObjectMap,
    schema: &'a OwnedValue,
    compile_node: F,
    result: Option<Result<OneOfKeyword<V>, ValidationError<'a>>>,
    items: Vec<OwnedValue>,
    i: int,
)
    requires
        call_ensures(compile::<V, F>, (ctx, parent, schema, compile_node), result),
        *schema == OwnedValue::Array(items),
        result is Some,
        result->0 is Ok,
        0 <= i < items@.len(),
    ensures
        result->0->Ok_0 is Single <==> items@.len() == 1,
        subschemas(result->0->Ok_0).len() == items@.len(),
        is_compiled_to(compile_node, ctx, &items@[i], i, Ok(subschemas(result->0->Ok_0)[i])),
        result->0->Ok_0 matches OneOfKeyword::Single(validator) ==> validator.location@
            == ctx.location@.push(Step::Property("oneOf"@)) && validator.node.wf(),
        result->0->Ok_0 matches OneOfKeyword::Multiple(validator) ==> validator.location@
            == ctx.location@.push(Step::Property("oneOf"@)) && validator.wf(),
{
    assert(schema->Array_0 == items);
    match result->0->Ok_0 {
        OneOfKeyword::Single(validator) => {
            assert(compiled(
                compile_node,
                ctx.resources,
                item_location(ctx.location@, 0),
                &items@[0],
                Ok(validator.node),
            ));
        },
        OneOfKeyword::Multiple(validator) => {
            a_compiled_keyword_has_the_schemas_of_its_items(
                validator,
                compile_node,
                ctx.resources,
                ctx.location@,
                items@,
                i,
            );
        },
    }
}

/// A keyword whose items cannot all be compiled is refused with the error of the first item that
/// cannot: every item before it is compiled.
pub proof fn compilation_stops_at_the_first_error<
    'a,
    V: Validate,
    F: Fn(&Context<'_>, &'a OwnedValue) -> Result<SchemaNode<V>, ValidationError<'a>>,
>(
    ctx: &Context<'_>,
    parent: &'a ObjectMap,
    schema: &'a OwnedValue,
    compile_node: F,
    result: Option<Result<OneOfKeyword<V>, ValidationError<'a>>>,
    items: Vec<OwnedValue>,
)
    requires
        call_ensures(compile::<V, F>, (ctx, parent, schema, compile_node), result),
        *schema == OwnedValue::Array(items),
        result is Some,
        result->0 is Err,
    ensures
        exists|k: int|
            0 <= k < items@.len() && #[trigger] is_compiled_to::<V, F>(
                compile_node,
                ctx,
                &items@[k],
                k,
                Err(result->0->Err_0),
            ) && forall|j: int|
                0 <= j < k ==> #[trigger] can_be_compiled::<V, F>(
                    compile_node,
                    ctx,
                    &items@[j],
                    j,
                ),
{
    assert(schema->Array_0 == items);
    let error = result->0->Err_0;
    let k = choose|k: int|
        0 <= k < items@.len() && #[trigger] compiled::<V, F>(
            compile_node,
            ctx.resources,
            item_location(ctx.location@, k),
            &items@[k],
            Err(error),
        ) && forall|j: int|
            0 <= j < k ==> #[trigger] compiles::<V, F>(
                compile_node,
                ctx.resources,
                item_location(ctx.location@, j),
                &items@[j],
            );
    assert forall|j: int| 0 <= j < k implies #[trigger] can_be_compiled::<V, F>(
        compile_node,
        ctx,
        &items@[j],
        j,
    ) by {
        assert(compiles::<V, F>(
            compile_node,
            ctx.resources,
            item_location(ctx.location@, j),
            &items@[j],
        ));
        let node = choose|node: SchemaNode<V>|
            compiled::<V, F>(
                compile_node,
                ctx.resources,
                item_location(ctx.location@, j),
                &items@[j],
                Ok(node),
            );
        assert(is_compiled_to::<V, F>(compile_node, ctx, &items@[j], j, Ok(node)));
    }
    assert(is_compiled_to::<V, F>(compile_node, ctx, &items@[k], k, Err(error)));
}

/// A compiled keyword of several items has a discriminator exactly where some property tells them
/// apart, by such a property, and the discriminator sends each text to the item that requires it.
pub proof fn a_compiled_keyword_has_the_discriminator_of_its_items<
    'a,
    V: Validate,
    F: Fn(&Context<'_>, &'a OwnedValue) -> Result<SchemaNode<V>, ValidationError<'a>>,
>(
    ctx: &Context<'_>,
    parent: &'a ObjectMap,
    schema: &'a OwnedValue,
    compile_node: F,
    result: Option<Result<OneOfKeyword<V>, ValidationError<'a>>>,
    items: Vec<OwnedValue>,
    validator: OneOfValidator<V>,
    property: Seq<char>,
)
    requires
        call_ensures(compile::<V, F>, (ctx, parent, schema, compile_node), result),
        *schema == OwnedValue::Array(items),
        items@.len() > 0,
        result == Some(Ok::<OneOfKeyword<V>, ValidationError<'a>>(OneOfKeyword::Multiple(validator))),
    ensures
        texts_differ(ctx.resources@, trees_of(items@), property)
            ==> validator.discriminator is Some,
        validator.discriminator matches Some(d) ==> texts_differ(
            ctx.resources@,
            trees_of(items@),
            d.property@,
        ),
        validator.discriminator matches Some(d) ==> forall|i: int, text: Seq<char>|
            0 <= i < items@.len() ==> (#[trigger] branch_requires_text(
                ctx.resources@,
                items@[i]@,
                d.property@,
                text,
            ) <==> branches_of(d.branches).contains_key(text) && branches_of(d.branches)[text]
                == i),
{
    assert(schema->Array_0 == items);
    a_compiled_keyword_sends_an_object_by_its_text(
        validator,
        compile_node,
        ctx.resources,
        ctx.location@,
        items@,
        property,
    );
}

} // verus!
