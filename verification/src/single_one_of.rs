//! The `oneOf` keyword with a single subschema, and the choice between the two forms
//! of the keyword.

use crate::compiler::Context;
use crate::error::{ValidationError, ValidationErrorKind};
use crate::evaluation::{EvaluationNode, EvaluationResult};
use crate::instance::InstanceRef;
use crate::one_of::{
    compiled, first_error, is_type_error, item_location, view_of, OneOfValidator,
};
use crate::paths::{Location, LocationSegment, Step};
use crate::validator::{to_list, SchemaNode, Validate};
use crate::value::{ObjectMap, OwnedValue};
use vstd::prelude::*;

verus! {

/// The `oneOf` keyword with a single subschema: as valid as that subschema.
pub struct SingleOneOfValidator<V: Validate> {
    pub node: SchemaNode<V>,
    pub location: Location,
}

impl<V: Validate> SingleOneOfValidator<V> {
    /// Whether this is the compiled keyword for a subschema.
    pub open spec fn is_compiled<
        'a,
        F: Fn(&Context<'_>, &'a OwnedValue) -> Result<SchemaNode<V>, ValidationError<'a>>,
    >(
        self,
        compile_node: F,
        resources: &ObjectMap,
        location: Seq<Step>,
        schema: &'a OwnedValue,
    ) -> bool {
        &&& compiled(compile_node, resources, item_location(location, 0), schema, Ok(self.node))
        &&& self.location@ == location.push(Step::Property("oneOf"@))
        &&& self.wf()
    }

    /// Compiles the keyword: its subschema.
    pub fn compile<
        'a,
        F: Fn(&Context<'_>, &'a OwnedValue) -> Result<SchemaNode<V>, ValidationError<'a>>,
    >(ctx: &Context<'_>, schema: &'a OwnedValue, compile_node: F) -> (result: Result<
        SingleOneOfValidator<V>,
        ValidationError<'a>,
    >)
        requires
            forall|c: &Context<'_>, s: &'a OwnedValue| call_requires(compile_node, (c, s)),
            forall|c: &Context<'_>, s: &'a OwnedValue, node: SchemaNode<V>|
                call_ensures(compile_node, (c, s), Ok(node)) ==> node.wf(),
        ensures
            result matches Ok(validator) ==> validator.is_compiled(
                compile_node,
                ctx.resources,
                ctx.location@,
                schema,
            ),
            result matches Err(error) ==> compiled::<V, F>(
                compile_node,
                ctx.resources,
                item_location(ctx.location@, 0),
                schema,
                Err(error),
            ),
    {
        let one_of_ctx = ctx.new_at_location(LocationSegment::Property("oneOf".to_string()));
        let item_ctx = one_of_ctx.new_at_location(LocationSegment::Index(0));
        match compile_node(&item_ctx, schema) {
            Ok(node) => Ok(SingleOneOfValidator { node, location: one_of_ctx.location().clone() }),
            Err(error) => Err(error),
        }
    }
}

impl<V: Validate> Validate for SingleOneOfValidator<V> {
    type ValidationContext = V::ValidationContext;

    type RefTracker = V::RefTracker;

    open spec fn wf(&self) -> bool {
        self.node.wf()
    }

    /// The subschema accepts the instance.
    open spec fn accepts(&self, instance: InstanceRef<'_>) -> bool {
        self.node.accepts(instance)
    }

    /// The subschema accepts the value.
    open spec fn validates(&self, instance: &OwnedValue) -> bool {
        self.node.accepts(view_of(instance))
    }

    /// The error says that no schema accepts the value, and holds the errors of the
    /// subschema.
    open spec fn reports(
        &self,
        instance: &OwnedValue,
        location: &Location,
        tracker: Option<&V::RefTracker>,
        error: &ValidationError<'_>,
    ) -> bool {
        &&& error.schema_path@ == self.location@
        &&& V::is_evaluation_path(tracker, &self.location, &error.evaluation_path)
        &&& error.instance_path@ == location@
        &&& *error.instance == *instance
        &&& error.kind matches ValidationErrorKind::OneOfNotValid { context } && context@.len() == 1
            && self.node.lists(instance, location, tracker, &context@[0])
    }

    /// One error, where the keyword finds any.
    open spec fn lists(
        &self,
        instance: &OwnedValue,
        location: &Location,
        tracker: Option<&V::RefTracker>,
        errors: &Vec<ValidationError<'_>>,
    ) -> bool {
        if self.validates(instance) {
            errors@.len() == 0
        } else {
            errors@.len() == 1 && self.reports(instance, location, tracker, &errors@[0])
        }
    }

    /// What the evaluation of the subschema gives.
    open spec fn evaluates(
        &self,
        instance: &OwnedValue,
        location: &Location,
        tracker: Option<&V::RefTracker>,
        result: &EvaluationResult,
    ) -> bool {
        exists|child: EvaluationNode| #[trigger]
            self.node.evaluates(instance, location, tracker, child) && result.wraps(child)
    }

    open spec fn is_evaluation_path(
        tracker: Option<&V::RefTracker>,
        location: &Location,
        path: &Location,
    ) -> bool {
        V::is_evaluation_path(tracker, location, path)
    }

    fn is_valid(&self, instance: &OwnedValue, ctx: &mut V::ValidationContext) -> (valid: bool) {
        self.node.is_valid(instance, ctx)
    }

    fn is_valid_instance(
        &self,
        instance: InstanceRef<'_>,
        ctx: &mut V::ValidationContext,
    ) -> (valid: bool) {
        self.node.is_valid_instance(instance, ctx)
    }

    fn validate<'i>(
        &self,
        instance: &'i OwnedValue,
        location: &Location,
        tracker: Option<&V::RefTracker>,
        ctx: &mut V::ValidationContext,
    ) -> (result: Result<(), ValidationError<'i>>) {
        if self.node.is_valid(instance, ctx) {
            Ok(())
        } else {
            let errors = self.node.iter_errors(instance, location, tracker, ctx);
            let context: Vec<Vec<ValidationError<'i>>> = vec![errors];
            assert(context@[0] == errors);
            Err(
                ValidationError::one_of_not_valid(
                    self.location.clone(),
                    V::capture_evaluation_path(tracker, &self.location),
                    location.clone(),
                    instance,
                    context,
                ),
            )
        }
    }

    fn iter_errors<'i>(
        &self,
        instance: &'i OwnedValue,
        location: &Location,
        tracker: Option<&V::RefTracker>,
        ctx: &mut V::ValidationContext,
    ) -> (errors: Vec<ValidationError<'i>>) {
        to_list(self.validate(instance, location, tracker, ctx))
    }

    fn evaluate(
        &self,
        instance: &OwnedValue,
        location: &Location,
        tracker: Option<&V::RefTracker>,
        ctx: &mut V::ValidationContext,
    ) -> (result: EvaluationResult) {
        let child = self.node.evaluate_instance(instance, location, tracker, ctx);
        EvaluationResult::from(child)
    }

    fn capture_evaluation_path(tracker: Option<&V::RefTracker>, location: &Location) -> (path:
        Location) {
        V::capture_evaluation_path(tracker, location)
    }
}

/// The `oneOf` keyword in the form that goes with the number of its subschemas.
pub enum OneOfKeyword<V: Validate> {
    Single(SingleOneOfValidator<V>),
    Multiple(OneOfValidator<V>),
}

impl<V: Validate> Validate for OneOfKeyword<V> {
    type ValidationContext = V::ValidationContext;

    type RefTracker = V::RefTracker;

    open spec fn wf(&self) -> bool {
        match self {
            OneOfKeyword::Single(validator) => validator.wf(),
            OneOfKeyword::Multiple(validator) => validator.wf(),
        }
    }

    open spec fn accepts(&self, instance: InstanceRef<'_>) -> bool {
        match self {
            OneOfKeyword::Single(validator) => validator.accepts(instance),
            OneOfKeyword::Multiple(validator) => validator.accepts(instance),
        }
    }

    open spec fn validates(&self, instance: &OwnedValue) -> bool {
        match self {
            OneOfKeyword::Single(validator) => validator.validates(instance),
            OneOfKeyword::Multiple(validator) => validator.validates(instance),
        }
    }

    open spec fn reports(
        &self,
        instance: &OwnedValue,
        location: &Location,
        tracker: Option<&V::RefTracker>,
        error: &ValidationError<'_>,
    ) -> bool {
        match self {
            OneOfKeyword::Single(validator) => validator.reports(
                instance,
                location,
                tracker,
                error,
            ),
            OneOfKeyword::Multiple(validator) => validator.reports(
                instance,
                location,
                tracker,
                error,
            ),
        }
    }

    open spec fn lists(
        &self,
        instance: &OwnedValue,
        location: &Location,
        tracker: Option<&V::RefTracker>,
        errors: &Vec<ValidationError<'_>>,
    ) -> bool {
        match self {
            OneOfKeyword::Single(validator) => validator.lists(instance, location, tracker, errors),
            OneOfKeyword::Multiple(validator) => validator.lists(
                instance,
                location,
                tracker,
                errors,
            ),
        }
    }

    open spec fn evaluates(
        &self,
        instance: &OwnedValue,
        location: &Location,
        tracker: Option<&V::RefTracker>,
        result: &EvaluationResult,
    ) -> bool {
        match self {
            OneOfKeyword::Single(validator) => validator.evaluates(
                instance,
                location,
                tracker,
                result,
            ),
            OneOfKeyword::Multiple(validator) => validator.evaluates(
                instance,
                location,
                tracker,
                result,
            ),
        }
    }

    open spec fn is_evaluation_path(
        tracker: Option<&V::RefTracker>,
        location: &Location,
        path: &Location,
    ) -> bool {
        V::is_evaluation_path(tracker, location, path)
    }

    fn is_valid(&self, instance: &OwnedValue, ctx: &mut V::ValidationContext) -> (valid: bool) {
        match self {
            OneOfKeyword::Single(validator) => validator.is_valid(instance, ctx),
            OneOfKeyword::Multiple(validator) => validator.is_valid(instance, ctx),
        }
    }

    fn is_valid_instance(
        &self,
        instance: InstanceRef<'_>,
        ctx: &mut V::ValidationContext,
    ) -> (valid: bool) {
        match self {
            OneOfKeyword::Single(validator) => validator.is_valid_instance(instance, ctx),
            OneOfKeyword::Multiple(validator) => validator.is_valid_instance(instance, ctx),
        }
    }

    fn validate<'i>(
        &self,
        instance: &'i OwnedValue,
        location: &Location,
        tracker: Option<&V::RefTracker>,
        ctx: &mut V::ValidationContext,
    ) -> (result: Result<(), ValidationError<'i>>) {
        match self {
            OneOfKeyword::Single(validator) => validator.validate(instance, location, tracker, ctx),
            OneOfKeyword::Multiple(validator) => validator.validate(
                instance,
                location,
                tracker,
                ctx,
            ),
        }
    }

    fn iter_errors<'i>(
        &self,
        instance: &'i OwnedValue,
        location: &Location,
        tracker: Option<&V::RefTracker>,
        ctx: &mut V::ValidationContext,
    ) -> (errors: Vec<ValidationError<'i>>) {
        match self {
            OneOfKeyword::Single(validator) => validator.iter_errors(
                instance,
                location,
                tracker,
                ctx,
            ),
            OneOfKeyword::Multiple(validator) => validator.iter_errors(
                instance,
                location,
                tracker,
                ctx,
            ),
        }
    }

    fn evaluate(
        &self,
        instance: &OwnedValue,
        location: &Location,
        tracker: Option<&V::RefTracker>,
        ctx: &mut V::ValidationContext,
    ) -> (result: EvaluationResult) {
        match self {
            OneOfKeyword::Single(validator) => validator.evaluate(instance, location, tracker, ctx),
            OneOfKeyword::Multiple(validator) => validator.evaluate(
                instance,
                location,
                tracker,
                ctx,
            ),
        }
    }

    fn capture_evaluation_path(tracker: Option<&V::RefTracker>, location: &Location) -> (path:
        Location) {
        V::capture_evaluation_path(tracker, location)
    }
}

/// Compiles the `oneOf` keyword: in the form for a single subschema where the schema
/// is an array of one item, else in the general form.
pub fn compile<
    'a,
    V: Validate,
    F: Fn(&Context<'_>, &'a OwnedValue) -> Result<SchemaNode<V>, ValidationError<'a>>,
>(ctx: &Context<'_>, _parent: &'a ObjectMap, schema: &'a OwnedValue, compile_node: F) -> (result:
    Option<Result<OneOfKeyword<V>, ValidationError<'a>>>)
    requires
        forall|c: &Context<'_>, s: &'a OwnedValue| call_requires(compile_node, (c, s)),
        forall|c: &Context<'_>, s: &'a OwnedValue, node: SchemaNode<V>|
            call_ensures(compile_node, (c, s), Ok(node)) ==> node.wf(),
    ensures
        result is Some,
        result->0 matches Ok(keyword) ==> schema is Array && match keyword {
            OneOfKeyword::Single(validator) => schema->Array_0@.len() == 1
                && validator.is_compiled(
                compile_node,
                ctx.resources,
                ctx.location@,
                &schema->Array_0@[0],
            ),
            OneOfKeyword::Multiple(validator) => schema->Array_0@.len() != 1
                && validator.is_compiled(
                compile_node,
                ctx.resources,
                ctx.location@,
                schema->Array_0@,
            ),
        },
        result->0 matches Err(error) ==> if schema is Array {
            first_error::<V, F>(
                compile_node,
                ctx.resources,
                ctx.location@,
                schema->Array_0@,
                error,
            )
        } else {
            is_type_error(error, ctx.location@, *schema)
        },
{
    if let OwnedValue::Array(items) = schema {
        if items.len() == 1 {
            return match SingleOneOfValidator::compile(ctx, &items[0], compile_node) {
                Ok(validator) => Some(Ok(OneOfKeyword::Single(validator))),
                Err(error) => {
                    assert(compiled::<V, F>(
                        compile_node,
                        ctx.resources,
                        item_location(ctx.location@, 0),
                        &items@[0],
                        Err(error),
                    ));
                    Some(Err(error))
                },
            };
        }
    }
    match OneOfValidator::compile(ctx, schema, compile_node) {
        Ok(validator) => Some(Ok(OneOfKeyword::Multiple(validator))),
        Err(error) => Some(Err(error)),
    }
}

} // verus!
