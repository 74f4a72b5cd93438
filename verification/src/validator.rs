//! What compiled schemas do with an instance.

use crate::error::ValidationError;
use crate::evaluation::{EvaluationNode, EvaluationResult};
use crate::instance::{InstanceRef, InstanceRepr};
use crate::paths::Location;
use crate::value::OwnedValue;
use vstd::prelude::*;

verus! {

/// A compiled keyword.
pub trait Validate: Sized {
    /// What validation keeps from one call to the next. No verdict depends on it.
    type ValidationContext;

    /// The references that led to a schema.
    type RefTracker;

    /// What holds of every compiled keyword.
    spec fn wf(&self) -> bool;

    /// Whether the keyword accepts an instance.
    spec fn accepts(&self, instance: InstanceRef<'_>) -> bool;

    /// Whether the keyword finds no error in a value.
    spec fn validates(&self, instance: &OwnedValue) -> bool;

    /// Whether this is an error that the keyword finds in a value.
    spec fn reports(
        &self,
        instance: &OwnedValue,
        location: &Location,
        tracker: Option<&Self::RefTracker>,
        error: &ValidationError<'_>,
    ) -> bool;

    /// Whether these are the errors that the keyword finds in a value.
    spec fn lists(
        &self,
        instance: &OwnedValue,
        location: &Location,
        tracker: Option<&Self::RefTracker>,
        errors: &Vec<ValidationError<'_>>,
    ) -> bool;

    /// Whether this is what the keyword finds out about a value.
    spec fn evaluates(
        &self,
        instance: &OwnedValue,
        location: &Location,
        tracker: Option<&Self::RefTracker>,
        result: &EvaluationResult,
    ) -> bool;

    /// Whether this is the way by which evaluation came to a location.
    spec fn is_evaluation_path(
        tracker: Option<&Self::RefTracker>,
        location: &Location,
        path: &Location,
    ) -> bool;

    /// Whether the keyword accepts a value.
    fn is_valid(&self, instance: &OwnedValue, ctx: &mut Self::ValidationContext) -> (valid: bool)
        requires
            self.wf(),
            instance.wf(),
        ensures
            valid == self.accepts(InstanceRef { repr: InstanceRepr::Serde(instance) }),
    ;

    /// Whether the keyword accepts an instance.
    fn is_valid_instance(
        &self,
        instance: InstanceRef<'_>,
        ctx: &mut Self::ValidationContext,
    ) -> (valid: bool)
        requires
            self.wf(),
            instance.wf(),
        ensures
            valid == self.accepts(instance),
    ;

    /// An error, where the keyword finds one in a value.
    fn validate<'i>(
        &self,
        instance: &'i OwnedValue,
        location: &Location,
        tracker: Option<&Self::RefTracker>,
        ctx: &mut Self::ValidationContext,
    ) -> (result: Result<(), ValidationError<'i>>)
        requires
            self.wf(),
            instance.wf(),
        ensures
            result is Ok <==> self.validates(instance),
            result matches Err(error) ==> self.reports(instance, location, tracker, &error),
    ;

    /// The errors that the keyword finds in a value.
    fn iter_errors<'i>(
        &self,
        instance: &'i OwnedValue,
        location: &Location,
        tracker: Option<&Self::RefTracker>,
        ctx: &mut Self::ValidationContext,
    ) -> (errors: Vec<ValidationError<'i>>)
        requires
            self.wf(),
            instance.wf(),
        ensures
            self.lists(instance, location, tracker, &errors),
            errors@.len() == 0 <==> self.validates(instance),
    ;

    /// What the keyword finds out about a value.
    fn evaluate(
        &self,
        instance: &OwnedValue,
        location: &Location,
        tracker: Option<&Self::RefTracker>,
        ctx: &mut Self::ValidationContext,
    ) -> (result: EvaluationResult)
        requires
            self.wf(),
            instance.wf(),
        ensures
            self.evaluates(instance, location, tracker, &result),
    ;

    /// The way by which evaluation came to a location.
    fn capture_evaluation_path(tracker: Option<&Self::RefTracker>, location: &Location) -> (path:
        Location)
        ensures
            Self::is_evaluation_path(tracker, location, &path),
    ;
}

/// The errors of a keyword that finds no more than one.
pub fn to_list<'i>(result: Result<(), ValidationError<'i>>) -> (errors: Vec<ValidationError<'i>>)
    ensures
        match result {
            Ok(_) => errors@.len() == 0,
            Err(error) => errors@ == seq![error],
        },
{
    let mut errors: Vec<ValidationError<'i>> = Vec::new();
    if let Err(error) = result {
        let ghost found = error;
        errors.push(error);
        assert(errors@ =~= seq![found]);
    }
    errors
}

/// A compiled schema.
pub struct SchemaNode<V: Validate> {
    pub validator: V,
    pub location: Location,
}

impl<V: Validate> SchemaNode<V> {
    pub open spec fn wf(self) -> bool {
        self.validator.wf()
    }

    /// Whether the schema accepts an instance.
    pub open spec fn accepts(self, instance: InstanceRef<'_>) -> bool {
        self.validator.accepts(instance)
    }

    /// Whether these are the errors that the schema finds in a value.
    pub open spec fn lists(
        self,
        instance: &OwnedValue,
        location: &Location,
        tracker: Option<&V::RefTracker>,
        errors: &Vec<ValidationError<'_>>,
    ) -> bool {
        self.validator.lists(instance, location, tracker, errors) && (errors@.len() == 0
            <==> self.validator.validates(instance))
    }

    /// Whether this is what the schema finds out about a value.
    pub open spec fn evaluates(
        self,
        instance: &OwnedValue,
        location: &Location,
        tracker: Option<&V::RefTracker>,
        node: EvaluationNode,
    ) -> bool {
        &&& node.schema_path@ == self.location@
        &&& node.instance_path@ == location@
        &&& exists|result: EvaluationResult| #[trigger]
            self.validator.evaluates(instance, location, tracker, &result) && match result {
                EvaluationResult::Valid { annotations, children } => {
                    node.valid && node.errors@.len() == 0 && node.children == children
                        && node.annotations == annotations
                },
                EvaluationResult::Invalid { errors, children, annotations } => {
                    !node.valid && node.errors == errors && node.children == children
                        && node.annotations == annotations
                },
            }
    }

    /// Whether the schema accepts a value.
    pub fn is_valid(&self, instance: &OwnedValue, ctx: &mut V::ValidationContext) -> (valid: bool)
        requires
            self.wf(),
            instance.wf(),
        ensures
            valid == self.accepts(InstanceRef { repr: InstanceRepr::Serde(instance) }),
    {
        self.validator.is_valid(instance, ctx)
    }

    /// Whether the schema accepts an instance.
    pub fn is_valid_instance(
        &self,
        instance: InstanceRef<'_>,
        ctx: &mut V::ValidationContext,
    ) -> (valid: bool)
        requires
            self.wf(),
            instance.wf(),
        ensures
            valid == self.accepts(instance),
    {
        self.validator.is_valid_instance(instance, ctx)
    }

    /// The errors that the schema finds in a value.
    pub fn iter_errors<'i>(
        &self,
        instance: &'i OwnedValue,
        location: &Location,
        tracker: Option<&V::RefTracker>,
        ctx: &mut V::ValidationContext,
    ) -> (errors: Vec<ValidationError<'i>>)
        requires
            self.wf(),
            instance.wf(),
        ensures
            self.lists(instance, location, tracker, &errors),
    {
        self.validator.iter_errors(instance, location, tracker, ctx)
    }

    /// What the schema finds out about a value.
    pub fn evaluate_instance(
        &self,
        instance: &OwnedValue,
        location: &Location,
        tracker: Option<&V::RefTracker>,
        ctx: &mut V::ValidationContext,
    ) -> (node: EvaluationNode)
        requires
            self.wf(),
            instance.wf(),
        ensures
            self.evaluates(instance, location, tracker, node),
    {
        let result = self.validator.evaluate(instance, location, tracker, ctx);
        let ghost found = result;
        let (valid, errors, children, annotations) = match result {
            EvaluationResult::Valid { annotations, children } => (
                true,
                Vec::new(),
                children,
                annotations,
            ),
            EvaluationResult::Invalid { errors, children, annotations } => (
                false,
                errors,
                children,
                annotations,
            ),
        };
        assert(self.validator.evaluates(instance, location, tracker, &found));
        EvaluationNode {
            valid,
            schema_path: self.location.clone(),
            instance_path: location.clone(),
            errors,
            children,
            annotations,
        }
    }
}

} // verus!
