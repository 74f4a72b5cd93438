//! The `oneOf` keyword: exactly one of some subschemas accepts the instance.

use crate::compiler::Context;
use crate::discriminator::{
    branches_are_in_range, branches_of, compile_discriminator, telling_property,
    OneOfDiscriminator,
};
use crate::error::{JsonType, ValidationError, ValidationErrorKind};
use crate::evaluation::{ErrorDescription, EvaluationNode, EvaluationResult};
use crate::instance::{InstanceRef, InstanceRepr};
use crate::paths::{Location, LocationSegment, Step};
use crate::validator::{to_list, SchemaNode, Validate};
use crate::value::{trees_of, ObjectMap, OwnedValue};
use vstd::prelude::*;

verus! {

/// The `oneOf` keyword.
pub struct OneOfValidator<V: Validate> {
    pub schemas: Vec<SchemaNode<V>>,
    pub location: Location,
    pub discriminator: Option<OneOfDiscriminator>,
}

/// Whether some schema accepts an instance.
pub open spec fn some_accepts<V: Validate>(
    schemas: Seq<SchemaNode<V>>,
    instance: InstanceRef<'_>,
) -> bool {
    exists|i: int| 0 <= i < schemas.len() && (#[trigger] schemas[i]).accepts(instance)
}

/// Whether exactly one schema accepts an instance.
pub open spec fn exactly_one<V: Validate>(
    schemas: Seq<SchemaNode<V>>,
    instance: InstanceRef<'_>,
) -> bool {
    exists|i: int|
        0 <= i < schemas.len() && (#[trigger] schemas[i]).accepts(instance) && forall|j: int|
            0 <= j < schemas.len() && j != i ==> !(#[trigger] schemas[j]).accepts(instance)
}

/// A view of an owned value.
pub open spec fn view_of<'a>(value: &'a OwnedValue) -> InstanceRef<'a> {
    InstanceRef { repr: InstanceRepr::Serde(value) }
}

/// Whether these are the errors that each schema finds in a value.
pub open spec fn all_list<V: Validate>(
    schemas: Seq<SchemaNode<V>>,
    instance: &OwnedValue,
    location: &Location,
    tracker: Option<&V::RefTracker>,
    context: Seq<Vec<ValidationError<'_>>>,
) -> bool {
    context.len() == schemas.len() && forall|i: int|
        0 <= i < schemas.len() ==> (#[trigger] schemas[i]).lists(
            instance,
            location,
            tracker,
            &context[i],
        )
}

/// Of the evaluations of the first `n` schemas, those that are valid and whose schema
/// accepts the instance.
pub open spec fn successes_among<V: Validate>(
    schemas: Seq<SchemaNode<V>>,
    instance: InstanceRef<'_>,
    nodes: Seq<EvaluationNode>,
    n: nat,
) -> Seq<EvaluationNode>
    decreases n,
{
    if n == 0 {
        Seq::empty()
    } else {
        let before = successes_among(schemas, instance, nodes, (n - 1) as nat);
        if schemas[n - 1].accepts(instance) && nodes[n - 1].valid {
            before.push(nodes[n - 1])
        } else {
            before
        }
    }
}

/// Whether these are the evaluations of each schema.
pub open spec fn all_evaluate<V: Validate>(
    schemas: Seq<SchemaNode<V>>,
    instance: &OwnedValue,
    location: &Location,
    tracker: Option<&V::RefTracker>,
    nodes: Seq<EvaluationNode>,
) -> bool {
    nodes.len() == schemas.len() && forall|i: int|
        0 <= i < schemas.len() ==> (#[trigger] schemas[i]).evaluates(
            instance,
            location,
            tracker,
            nodes[i],
        )
}

/// Whether these are the valid ones of the evaluations of the schemas that accept a
/// value, in the order of the schemas.
pub open spec fn accepting_evaluate<V: Validate>(
    schemas: Seq<SchemaNode<V>>,
    instance: &OwnedValue,
    location: &Location,
    tracker: Option<&V::RefTracker>,
    successes: Seq<EvaluationNode>,
) -> bool {
    exists|nodes: Seq<EvaluationNode>|
        {
            &&& nodes.len() == schemas.len()
            &&& forall|i: int|
                0 <= i < schemas.len() && schemas[i].accepts(view_of(instance)) ==> (
                #[trigger] schemas[i]).evaluates(instance, location, tracker, nodes[i])
            &&& successes == #[trigger] successes_among(
                schemas,
                view_of(instance),
                nodes,
                schemas.len(),
            )
        }
}

impl<V: Validate> OneOfValidator<V> {
    /// The branch that the discriminator tells for an instance.
    pub open spec fn spec_branch(&self, instance: InstanceRef<'_>) -> Option<usize> {
        match self.discriminator {
            Some(discriminator) => discriminator.spec_branch(instance),
            None => None,
        }
    }

    /// The first schema that accepts a value.
    fn get_first_valid(&self, instance: &OwnedValue, ctx: &mut V::ValidationContext) -> (first:
        Option<usize>)
        requires
            self.wf(),
            instance.wf(),
        ensures
            first is Some <==> some_accepts(self.schemas@, view_of(instance)),
            first matches Some(i) ==> {
                &&& i < self.schemas@.len()
                &&& self.schemas@[i as int].accepts(view_of(instance))
                &&& forall|j: int|
                    0 <= j < i ==> !(#[trigger] self.schemas@[j]).accepts(view_of(instance))
            },
    {
        let mut index: usize = 0;
        while index < self.schemas.len()
            invariant
                self.wf(),
                instance.wf(),
                index <= self.schemas.len(),
                forall|j: int|
                    0 <= j < index ==> !(#[trigger] self.schemas@[j]).accepts(view_of(instance)),
            decreases self.schemas.len() - index,
        {
            if self.schemas[index].is_valid(instance, ctx) {
                return Some(index);
            }
            index += 1;
        }
        None
    }

    /// Whether a schema behind the one at `index` accepts a value.
    fn are_others_valid(
        &self,
        instance: &OwnedValue,
        index: usize,
        ctx: &mut V::ValidationContext,
    ) -> (others: bool)
        requires
            self.wf(),
            instance.wf(),
            index < self.schemas@.len(),
        ensures
            others <==> exists|j: int|
                index < j < self.schemas@.len() && (#[trigger] self.schemas@[j]).accepts(
                    view_of(instance),
                ),
    {
        let count: usize = self.schemas.len();
        let mut other: usize = index + 1;
        while other < count
            invariant
                self.wf(),
                instance.wf(),
                count == self.schemas@.len(),
                index < other <= count,
                forall|j: int|
                    index < j < other ==> !(#[trigger] self.schemas@[j]).accepts(view_of(instance)),
            decreases count - other,
        {
            if self.schemas[other].is_valid(instance, ctx) {
                return true;
            }
            other += 1;
        }
        false
    }

    /// The first schema that accepts an instance.
    fn get_first_valid_instance(
        &self,
        instance: InstanceRef<'_>,
        ctx: &mut V::ValidationContext,
    ) -> (first: Option<usize>)
        requires
            self.wf(),
            instance.wf(),
        ensures
            first is Some <==> some_accepts(self.schemas@, instance),
            first matches Some(i) ==> {
                &&& i < self.schemas@.len()
                &&& self.schemas@[i as int].accepts(instance)
                &&& forall|j: int| 0 <= j < i ==> !(#[trigger] self.schemas@[j]).accepts(instance)
            },
    {
        let mut index: usize = 0;
        while index < self.schemas.len()
            invariant
                self.wf(),
                instance.wf(),
                index <= self.schemas.len(),
                forall|j: int| 0 <= j < index ==> !(#[trigger] self.schemas@[j]).accepts(instance),
            decreases self.schemas.len() - index,
        {
            if self.schemas[index].is_valid_instance(instance, ctx) {
                return Some(index);
            }
            index += 1;
        }
        None
    }

    /// Whether a schema behind the one at `index` accepts an instance.
    fn are_other_instances_valid(
        &self,
        instance: InstanceRef<'_>,
        index: usize,
        ctx: &mut V::ValidationContext,
    ) -> (others: bool)
        requires
            self.wf(),
            instance.wf(),
            index < self.schemas@.len(),
        ensures
            others <==> exists|j: int|
                index < j < self.schemas@.len() && (#[trigger] self.schemas@[j]).accepts(instance),
    {
        let count: usize = self.schemas.len();
        let mut other: usize = index + 1;
        while other < count
            invariant
                self.wf(),
                instance.wf(),
                count == self.schemas@.len(),
                index < other <= count,
                forall|j: int|
                    index < j < other ==> !(#[trigger] self.schemas@[j]).accepts(instance),
            decreases count - other,
        {
            if self.schemas[other].is_valid_instance(instance, ctx) {
                return true;
            }
            other += 1;
        }
        false
    }

    /// The branch that the discriminator tells for an instance.
    pub fn discriminated_branch(&self, instance: InstanceRef<'_>) -> (index: Option<usize>)
        requires
            instance.wf(),
        ensures
            index == self.spec_branch(instance),
    {
        match &self.discriminator {
            Some(discriminator) => discriminator.branch(instance),
            None => None,
        }
    }

    /// The errors that each schema finds in a value.
    fn all_errors<'i>(
        &self,
        instance: &'i OwnedValue,
        location: &Location,
        tracker: Option<&V::RefTracker>,
        ctx: &mut V::ValidationContext,
    ) -> (context: Vec<Vec<ValidationError<'i>>>)
        requires
            self.wf(),
            instance.wf(),
        ensures
            all_list(self.schemas@, instance, location, tracker, context@),
    {
        let mut context: Vec<Vec<ValidationError<'i>>> = Vec::new();
        let mut index: usize = 0;
        while index < self.schemas.len()
            invariant
                self.wf(),
                instance.wf(),
                index <= self.schemas.len(),
                context.len() == index,
                forall|i: int|
                    0 <= i < index ==> (#[trigger] self.schemas@[i]).lists(
                        instance,
                        location,
                        tracker,
                        &context@[i],
                    ),
            decreases self.schemas.len() - index,
        {
            context.push(self.schemas[index].iter_errors(instance, location, tracker, ctx));
            index += 1;
        }
        context
    }

    /// The evaluation of each schema.
    fn evaluate_all(
        &self,
        instance: &OwnedValue,
        location: &Location,
        tracker: Option<&V::RefTracker>,
        ctx: &mut V::ValidationContext,
    ) -> (nodes: Vec<EvaluationNode>)
        requires
            self.wf(),
            instance.wf(),
        ensures
            all_evaluate(self.schemas@, instance, location, tracker, nodes@),
    {
        let mut nodes: Vec<EvaluationNode> = Vec::new();
        let mut index: usize = 0;
        while index < self.schemas.len()
            invariant
                self.wf(),
                instance.wf(),
                index <= self.schemas.len(),
                nodes.len() == index,
                forall|i: int|
                    0 <= i < index ==> (#[trigger] self.schemas@[i]).evaluates(
                        instance,
                        location,
                        tracker,
                        nodes@[i],
                    ),
            decreases self.schemas.len() - index,
        {
            nodes.push(self.schemas[index].evaluate_instance(instance, location, tracker, ctx));
            index += 1;
        }
        nodes
    }

    /// The valid ones of the evaluations of the schemas that accept a value, of which
    /// the one at `first` is one.
    fn evaluate_accepting(
        &self,
        instance: &OwnedValue,
        first: usize,
        location: &Location,
        tracker: Option<&V::RefTracker>,
        ctx: &mut V::ValidationContext,
    ) -> (successes: Vec<EvaluationNode>)
        requires
            self.wf(),
            instance.wf(),
            first < self.schemas@.len(),
            self.schemas@[first as int].accepts(view_of(instance)),
        ensures
            accepting_evaluate(self.schemas@, instance, location, tracker, successes@),
    {
        let mut successes: Vec<EvaluationNode> = Vec::new();
        let ghost mut nodes: Seq<EvaluationNode> = Seq::empty();
        let mut index: usize = 0;
        while index < self.schemas.len()
            invariant
                self.wf(),
                instance.wf(),
                index <= self.schemas.len(),
                self.schemas@[first as int].accepts(view_of(instance)),
                nodes.len() == index,
                forall|i: int|
                    0 <= i < index && self.schemas@[i].accepts(view_of(instance)) ==> (
                    #[trigger] self.schemas@[i]).evaluates(instance, location, tracker, nodes[i]),
                successes@ == successes_among(
                    self.schemas@,
                    view_of(instance),
                    nodes,
                    index as nat,
                ),
            decreases self.schemas.len() - index,
        {
            let node = &self.schemas[index];
            let ghost before = nodes;
            if index == first || node.is_valid(instance, ctx) {
                let child = node.evaluate_instance(instance, location, tracker, ctx);
                proof {
                    nodes = nodes.push(child);
                }
                if child.valid {
                    successes.push(child);
                }
            } else {
                proof {
                    nodes = nodes.push(arbitrary());
                }
            }
            proof {
                lemma_successes_extend(
                    self.schemas@,
                    view_of(instance),
                    before,
                    nodes,
                    index as nat,
                );
            }
            index += 1;
        }
        successes
    }
}

impl<V: Validate> Validate for OneOfValidator<V> {
    type ValidationContext = V::ValidationContext;

    type RefTracker = V::RefTracker;

    /// The schemas are in good order, and the discriminator tells only branches that
    /// there are.
    open spec fn wf(&self) -> bool {
        &&& forall|i: int| 0 <= i < self.schemas@.len() ==> (#[trigger] self.schemas@[i]).wf()
        &&& self.discriminator matches Some(discriminator) ==> forall|text: Seq<char>| #[trigger]
            branches_of(discriminator.branches).contains_key(text) ==> branches_of(
                discriminator.branches,
            )[text] < self.schemas@.len()
    }

    /// Where the discriminator tells a branch, whether that branch accepts the
    /// instance; else whether exactly one schema does.
    open spec fn accepts(&self, instance: InstanceRef<'_>) -> bool {
        match self.spec_branch(instance) {
            Some(index) => self.schemas@[index as int].accepts(instance),
            None => exactly_one(self.schemas@, instance),
        }
    }

    /// Exactly one schema accepts the value.
    open spec fn validates(&self, instance: &OwnedValue) -> bool {
        exactly_one(self.schemas@, view_of(instance))
    }

    /// The error says whether no schema or more than one accepts the value, and holds
    /// the errors of each schema.
    open spec fn reports(
        &self,
        instance: &OwnedValue,
        location: &Location,
        tracker: Option<&V::RefTracker>,
        error: &ValidationError<'_>,
    ) -> bool {
        &&& error.schema_path@ == self.location@
        &&& V::is_evaluation_path(tracker, &self.location, &error.evaluation_path)
        &&& error.instance_path@ == location@
        &&& *error.instance == *instance
        &&& match error.kind {
            ValidationErrorKind::OneOfNotValid { context } => !some_accepts(
                self.schemas@,
                view_of(instance),
            ) && all_list(self.schemas@, instance, location, tracker, context@),
            ValidationErrorKind::OneOfMultipleValid { context } => some_accepts(
                self.schemas@,
                view_of(instance),
            ) && all_list(self.schemas@, instance, location, tracker, context@),
            _ => false,
        }
    }

    /// One error, where the keyword finds any.
    open spec fn lists(
        &self,
        instance: &OwnedValue,
        location: &Location,
        tracker: Option<&V::RefTracker>,
        errors: &Vec<ValidationError<'_>>,
    ) -> bool {
        if self.validates(instance) {
            errors@.len() == 0
        } else {
            errors@.len() == 1 && self.reports(instance, location, tracker, &errors@[0])
        }
    }

    /// Where no schema accepts the value: invalid, with the evaluation of each. Where
    /// exactly one does: what its evaluation gives. Where more than one does: invalid,
    /// with an error that says so and the valid evaluations of those schemas.
    open spec fn evaluates(
        &self,
        instance: &OwnedValue,
        location: &Location,
        tracker: Option<&V::RefTracker>,
        result: &EvaluationResult,
    ) -> bool {
        if !some_accepts(self.schemas@, view_of(instance)) {
            *result matches EvaluationResult::Invalid { errors, children, annotations } && {
                &&& errors@.len() == 0
                &&& annotations is None
                &&& all_evaluate(self.schemas@, instance, location, tracker, children@)
            }
        } else if exactly_one(self.schemas@, view_of(instance)) {
            exists|i: int, child: EvaluationNode|
                0 <= i < self.schemas@.len() && self.schemas@[i].accepts(view_of(instance))
                    && #[trigger] self.schemas@[i].evaluates(instance, location, tracker, child)
                    && result.wraps(child)
        } else {
            *result matches EvaluationResult::Invalid { errors, children, annotations } && {
                &&& errors@.len() == 1
                &&& errors@[0].keyword@ == "oneOf"@
                &&& errors@[0].message@ == "more than one subschema succeeded"@
                &&& annotations is None
                &&& accepting_evaluate(self.schemas@, instance, location, tracker, children@)
            }
        }
    }

    open spec fn is_evaluation_path(
        tracker: Option<&V::RefTracker>,
        location: &Location,
        path: &Location,
    ) -> bool {
        V::is_evaluation_path(tracker, location, path)
    }

    fn is_valid(&self, instance: &OwnedValue, ctx: &mut V::ValidationContext) -> (valid: bool) {
        if let Some(index) = self.discriminated_branch(InstanceRef::from_serde(instance)) {
            return self.schemas[index].is_valid(instance, ctx);
        }
        match self.get_first_valid(instance, ctx) {
            Some(index) => !self.are_others_valid(instance, index, ctx),
            None => false,
        }
    }

    fn is_valid_instance(
        &self,
        instance: InstanceRef<'_>,
        ctx: &mut V::ValidationContext,
    ) -> (valid: bool) {
        if let Some(index) = self.discriminated_branch(instance) {
            return self.schemas[index].is_valid_instance(instance, ctx);
        }
        match self.get_first_valid_instance(instance, ctx) {
            Some(index) => !self.are_other_instances_valid(instance, index, ctx),
            None => false,
        }
    }

    fn validate<'i>(
        &self,
        instance: &'i OwnedValue,
        location: &Location,
        tracker: Option<&V::RefTracker>,
        ctx: &mut V::ValidationContext,
    ) -> (result: Result<(), ValidationError<'i>>) {
        match self.get_first_valid(instance, ctx) {
            Some(index) => {
                if self.are_others_valid(instance, index, ctx) {
                    return Err(
                        ValidationError::one_of_multiple_valid(
                            self.location.clone(),
                            V::capture_evaluation_path(tracker, &self.location),
                            location.clone(),
                            instance,
                            self.all_errors(instance, location, tracker, ctx),
                        ),
                    );
                }
                Ok(())
            },
            None => Err(
                ValidationError::one_of_not_valid(
                    self.location.clone(),
                    V::capture_evaluation_path(tracker, &self.location),
                    location.clone(),
                    instance,
                    self.all_errors(instance, location, tracker, ctx),
                ),
            ),
        }
    }

    fn iter_errors<'i>(
        &self,
        instance: &'i OwnedValue,
        location: &Location,
        tracker: Option<&V::RefTracker>,
        ctx: &mut V::ValidationContext,
    ) -> (errors: Vec<ValidationError<'i>>) {
        to_list(self.validate(instance, location, tracker, ctx))
    }

    fn evaluate(
        &self,
        instance: &OwnedValue,
        location: &Location,
        tracker: Option<&V::RefTracker>,
        ctx: &mut V::ValidationContext,
    ) -> (result: EvaluationResult) {
        // The cheap verdicts come first; only what is reported is evaluated in full.
        match self.get_first_valid(instance, ctx) {
            None => {
                let children = self.evaluate_all(instance, location, tracker, ctx);
                EvaluationResult::Invalid { errors: Vec::new(), children, annotations: None }
            },
            Some(first) => if self.are_others_valid(instance, first, ctx) {
                let children = self.evaluate_accepting(instance, first, location, tracker, ctx);
                let error = ErrorDescription::new(
                    "oneOf",
                    "more than one subschema succeeded".to_string(),
                );
                let errors: Vec<ErrorDescription> = vec![error];
                assert(errors@[0] == error);
                EvaluationResult::Invalid { errors, children, annotations: None }
            } else {
                let child = self.schemas[first].evaluate_instance(instance, location, tracker, ctx);
                EvaluationResult::from(child)
            },
        }
    }

    fn capture_evaluation_path(tracker: Option<&V::RefTracker>, location: &Location) -> (path:
        Location) {
        V::capture_evaluation_path(tracker, location)
    }
}

/// Further evaluations do not change which of the first ones count.
proof fn lemma_successes_extend<V: Validate>(
    schemas: Seq<SchemaNode<V>>,
    instance: InstanceRef<'_>,
    nodes: Seq<EvaluationNode>,
    more: Seq<EvaluationNode>,
    n: nat,
)
    requires
        n <= nodes.len() <= more.len(),
        forall|i: int| 0 <= i < n ==> nodes[i] == more[i],
    ensures
        successes_among(schemas, instance, nodes, n) == successes_among(schemas, instance, more, n),
    decreases n,
{
    if n > 0 {
        lemma_successes_extend(schemas, instance, nodes, more, (n - 1) as nat);
    }
}

/// Whether this is what a compiler gives for a schema at a location.
pub open spec fn compiled<
    'a,
    V: Validate,
    F: Fn(&Context<'_>, &'a OwnedValue) -> Result<SchemaNode<V>, ValidationError<'a>>,
>(
    compile_node: F,
    resources: &ObjectMap,
    location: Seq<Step>,
    schema: &'a OwnedValue,
    result: Result<SchemaNode<V>, ValidationError<'a>>,
) -> bool {
    exists|ctx: Context<'_>|
        ctx.location@ == location && ctx.resources == resources && #[trigger] call_ensures(
            compile_node,
            (&ctx, schema),
            result,
        )
}

/// Whether a compiler gives some compiled schema for a schema at a location.
pub open spec fn compiles<
    'a,
    V: Validate,
    F: Fn(&Context<'_>, &'a OwnedValue) -> Result<SchemaNode<V>, ValidationError<'a>>,
>(
    compile_node: F,
    resources: &ObjectMap,
    location: Seq<Step>,
    schema: &'a OwnedValue,
) -> bool {
    exists|node: SchemaNode<V>|
        compiled::<V, F>(compile_node, resources, location, schema, Ok(node))
}

/// Where the subschema at an index is compiled.
pub open spec fn item_location(location: Seq<Step>, index: int) -> Seq<Step> {
    location.push(Step::Property("oneOf"@)).push(Step::Index(index))
}

/// Whether this is the error of a keyword that is not of the one type that is allowed.
pub open spec fn is_type_error(
    error: ValidationError<'_>,
    location: Seq<Step>,
    schema: OwnedValue,
) -> bool {
    &&& error.schema_path@ == location.push(Step::Property("oneOf"@))
    &&& error.evaluation_path@ == location.push(Step::Property("oneOf"@))
    &&& error.instance_path@ == Seq::<Step>::empty()
    &&& *error.instance == schema
    &&& error.kind == (ValidationErrorKind::Type { expected: JsonType::Array })
}

/// Whether the compilation of the items stops with this error: the first that there is.
pub open spec fn first_error<
    'a,
    V: Validate,
    F: Fn(&Context<'_>, &'a OwnedValue) -> Result<SchemaNode<V>, ValidationError<'a>>,
>(
    compile_node: F,
    resources: &ObjectMap,
    location: Seq<Step>,
    items: Seq<OwnedValue>,
    error: ValidationError<'a>,
) -> bool {
    exists|k: int|
        0 <= k < items.len() && #[trigger] compiled::<V, F>(
            compile_node,
            resources,
            item_location(location, k),
            &items[k],
            Err(error),
        ) && forall|j: int|
            0 <= j < k ==> #[trigger] compiles::<V, F>(
                compile_node,
                resources,
                item_location(location, j),
                &items[j],
            )
}

impl<V: Validate> OneOfValidator<V> {
    /// Whether this is the compiled keyword for some subschemas.
    pub open spec fn is_compiled<
        'a,
        F: Fn(&Context<'_>, &'a OwnedValue) -> Result<SchemaNode<V>, ValidationError<'a>>,
    >(
        self,
        compile_node: F,
        resources: &ObjectMap,
        location: Seq<Step>,
        items: Seq<OwnedValue>,
    ) -> bool {
        &&& self.schemas@.len() == items.len()
        &&& forall|i: int|
            0 <= i < items.len() ==> compiled(
                compile_node,
                resources,
                item_location(location, i),
                &items[i],
                Ok(#[trigger] self.schemas@[i]),
            )
        &&& self.location@ == location.push(Step::Property("oneOf"@))
        &&& self.discriminator is Some <==> telling_property(
            resources@,
            trees_of(items),
        ) is Some
        &&& self.discriminator matches Some(discriminator) ==> discriminator.is_by(
            resources@,
            trees_of(items),
            telling_property(resources@, trees_of(items))->0,
        )
        &&& self.wf()
    }

    /// Compiles the keyword: each item of the schema, until one cannot be compiled.
    pub fn compile<
        'a,
        F: Fn(&Context<'_>, &'a OwnedValue) -> Result<SchemaNode<V>, ValidationError<'a>>,
    >(ctx: &Context<'_>, schema: &'a OwnedValue, compile_node: F) -> (result: Result<
        OneOfValidator<V>,
        ValidationError<'a>,
    >)
        requires
            forall|c: &Context<'_>, s: &'a OwnedValue| call_requires(compile_node, (c, s)),
            forall|c: &Context<'_>, s: &'a OwnedValue, node: SchemaNode<V>|
                call_ensures(compile_node, (c, s), Ok(node)) ==> node.wf(),
        ensures
            result matches Ok(validator) ==> schema is Array && validator.is_compiled(
                compile_node,
                ctx.resources,
                ctx.location@,
                schema->Array_0@,
            ),
            result matches Err(error) ==> if schema is Array {
                first_error::<V, F>(
                    compile_node,
                    ctx.resources,
                    ctx.location@,
                    schema->Array_0@,
                    error,
                )
            } else {
                is_type_error(error, ctx.location@, *schema)
            },
    {
        let ghost root = ctx.location@;
        if let OwnedValue::Array(items) = schema {
            let ghost resources = ctx.resources;
            let one_of_ctx = ctx.new_at_location(LocationSegment::Property("oneOf".to_string()));
            let discriminator = compile_discriminator(&one_of_ctx, items.as_slice());
            let mut schemas: Vec<SchemaNode<V>> = Vec::new();
            let mut index: usize = 0;
            while index < items.len()
                invariant
                    forall|c: &Context<'_>, s: &'a OwnedValue| call_requires(compile_node, (c, s)),
                    forall|c: &Context<'_>, s: &'a OwnedValue, node: SchemaNode<V>|
                        call_ensures(compile_node, (c, s), Ok(node)) ==> node.wf(),
                    *schema == OwnedValue::Array(*items),
                    root == ctx.location@,
                    resources == ctx.resources,
                    one_of_ctx.location@ == root.push(Step::Property("oneOf"@)),
                    one_of_ctx.resources == resources,
                    index <= items.len(),
                    schemas.len() == index,
                    forall|i: int| 0 <= i < index ==> (#[trigger] schemas@[i]).wf(),
                    forall|i: int|
                        0 <= i < index ==> compiled(
                            compile_node,
                            resources,
                            item_location(root, i),
                            &items@[i],
                            Ok(#[trigger] schemas@[i]),
                        ),
                decreases items.len() - index,
            {
                let item_ctx = one_of_ctx.new_at_location(LocationSegment::Index(index));
                match compile_node(&item_ctx, &items[index]) {
                    Ok(node) => {
                        assert(compiled(
                            compile_node,
                            resources,
                            item_location(root, index as int),
                            &items@[index as int],
                            Ok(node),
                        ));
                        schemas.push(node);
                    },
                    Err(error) => {
                        proof {
                            assert(compiled::<V, F>(
                                compile_node,
                                resources,
                                item_location(root, index as int),
                                &items@[index as int],
                                Err(error),
                            ));
                            assert forall|j: int| 0 <= j < index implies #[trigger] compiles::<
                                V,
                                F,
                            >(
                                compile_node,
                                resources,
                                item_location(root, j),
                                &items@[j],
                            ) by {
                                assert(compiled(
                                    compile_node,
                                    resources,
                                    item_location(root, j),
                                    &items@[j],
                                    Ok(schemas@[j]),
                                ));
                            }
                        }
                        return Err(error);
                    },
                }
                index += 1;
            }
            let validator = OneOfValidator {
                schemas,
                location: one_of_ctx.location().clone(),
                discriminator,
            };
            proof {
                if validator.discriminator is Some {
                    branches_are_in_range(
                        validator.discriminator->0,
                        resources@,
                        trees_of(items@),
                        telling_property(resources@, trees_of(items@))->0,
                    );
                }
            }
            Ok(validator)
        } else {
            let location = ctx.location().join(LocationSegment::Property("oneOf".to_string()));
            Err(
                ValidationError::single_type_error(
                    location.clone(),
                    location,
                    Location::new(),
                    schema,
                    JsonType::Array,
                ),
            )
        }
    }
}

} // verus!
