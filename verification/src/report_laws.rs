//! Laws of what the keyword reports: its errors, and its evaluations.

use crate::error::{ValidationError, ValidationErrorKind};
use crate::evaluation::{EvaluationNode, EvaluationResult};
use crate::one_of::{accepting_evaluate, all_list, successes_among, view_of, OneOfValidator};
use crate::paths::Location;
use crate::single_one_of::{OneOfKeyword, SingleOneOfValidator};
use crate::validator::{SchemaNode, Validate};
use crate::value::OwnedValue;
use crate::verdict_laws::{accepting, accepting_is_finite, exactly_one_is_one_of_the_accepting};
use vstd::prelude::*;

verus! {

/// The lists of errors that an error of `oneOf` holds.
pub open spec fn context_of<'i>(error: ValidationError<'i>) -> Seq<Vec<ValidationError<'i>>> {
    match error.kind {
        ValidationErrorKind::OneOfNotValid { context } => context@,
        ValidationErrorKind::OneOfMultipleValid { context } => context@,
        _ => Seq::empty(),
    }
}

/// The children of the evaluation of a keyword.
pub open spec fn children_of(result: EvaluationResult) -> Seq<EvaluationNode> {
    match result {
        EvaluationResult::Valid { children, .. } => children@,
        EvaluationResult::Invalid { children, .. } => children@,
    }
}

/// The errors that a schema lists are those of its keyword, and there are none exactly where the
/// keyword finds none.
pub proof fn a_schema_lists_the_errors_of_its_keyword<V: Validate>(
    schema: SchemaNode<V>,
    value: &OwnedValue,
    location: &Location,
    tracker: Option<&V::RefTracker>,
    errors: &Vec<ValidationError<'_>>,
)
    requires
        schema.lists(value, location, tracker, errors),
    ensures
        schema.validator.lists(value, location, tracker, errors),
        errors@.len() == 0 <==> schema.validator.validates(value),
{
}

/// An error of the keyword names the keyword, the way there and the value, and tells whether no
/// schema accepts the value or several do. It holds a list of errors for each schema, which is
/// that of the schema at its place.
pub proof fn an_error_names_the_keyword_and_holds_the_errors_of_each_schema<V: Validate>(
    validator: OneOfValidator<V>,
    value: &OwnedValue,
    location: &Location,
    tracker: Option<&V::RefTracker>,
    error: &ValidationError<'_>,
)
    requires
        !validator.validates(value),
        validator.reports(value, location, tracker, error),
    ensures
        error.schema_path@ == validator.location@,
        error.instance_path@ == location@,
        *error.instance == *value,
        V::is_evaluation_path(tracker, &validator.location, &error.evaluation_path),
        error.kind is OneOfNotValid || error.kind is OneOfMultipleValid,
        error.kind is OneOfNotValid <==> accepting(validator.schemas@, view_of(value)).len() == 0,
        error.kind is OneOfMultipleValid <==> accepting(validator.schemas@, view_of(value)).len()
            >= 2,
        context_of(*error).len() == validator.schemas@.len(),
        forall|i: int|
            #![trigger validator.schemas@[i]]
            0 <= i < validator.schemas@.len() ==> validator.schemas@[i].validator.lists(
                value,
                location,
                tracker,
                &context_of(*error)[i],
            ) && (context_of(*error)[i]@.len() == 0
                <==> validator.schemas@[i].validator.validates(value)),
{
    exactly_one_is_one_of_the_accepting(validator.schemas@, view_of(value));
    assert(all_list(validator.schemas@, value, location, tracker, context_of(*error)));
    assert forall|i: int| 0 <= i < validator.schemas@.len() implies (
    #[trigger] validator.schemas@[i]).lists(value, location, tracker, &context_of(*error)[i]) by {}
}

/// An error of the form for a single subschema names the keyword, the way there and the value,
/// says that no schema accepts the value, and holds the errors of the subschema.
pub proof fn an_error_of_the_single_form_holds_the_errors_of_its_subschema<V: Validate>(
    validator: SingleOneOfValidator<V>,
    value: &OwnedValue,
    location: &Location,
    tracker: Option<&V::RefTracker>,
    error: &ValidationError<'_>,
)
    requires
        validator.reports(value, location, tracker, error),
    ensures
        error.schema_path@ == validator.location@,
        error.instance_path@ == location@,
        *error.instance == *value,
        V::is_evaluation_path(tracker, &validator.location, &error.evaluation_path),
        error.kind is OneOfNotValid,
        context_of(*error).len() == 1,
        validator.node.validator.lists(value, location, tracker, &context_of(*error)[0]),
        context_of(*error)[0]@.len() == 0 <==> validator.node.validator.validates(value),
{
}

/// The keyword lists no error where it finds none, else the one error that it reports.
pub proof fn the_keyword_lists_the_error_that_it_reports<V: Validate>(
    validator: OneOfValidator<V>,
    value: &OwnedValue,
    location: &Location,
    tracker: Option<&V::RefTracker>,
    errors: &Vec<ValidationError<'_>>,
)
    requires
        validator.lists(value, location, tracker, errors),
    ensures
        errors@.len() == 0 <==> accepting(validator.schemas@, view_of(value)).len() == 1,
        errors@.len() <= 1,
        errors@.len() == 1 ==> validator.reports(value, location, tracker, &errors@[0]),
{
    exactly_one_is_one_of_the_accepting(validator.schemas@, view_of(value));
}

/// The form for a single subschema lists no error where the subschema accepts the value, else
/// the one error that it reports.
pub proof fn the_single_form_lists_the_error_that_it_reports<V: Validate>(
    validator: SingleOneOfValidator<V>,
    value: &OwnedValue,
    location: &Location,
    tracker: Option<&V::RefTracker>,
    errors: &Vec<ValidationError<'_>>,
)
    requires
        validator.lists(value, location, tracker, errors),
    ensures
        errors@.len() == 0 <==> validator.node.validator.accepts(view_of(value)),
        errors@.len() <= 1,
        errors@.len() == 1 ==> validator.reports(value, location, tracker, &errors@[0]),
{
}

/// Each form of the keyword reports, lists and evaluates as it does on its own.
pub proof fn the_keyword_reports_as_its_form<V: Validate>(
    single: SingleOneOfValidator<V>,
    multiple: OneOfValidator<V>,
    value: &OwnedValue,
    location: &Location,
    tracker: Option<&V::RefTracker>,
    error: &ValidationError<'_>,
    errors: &Vec<ValidationError<'_>>,
    result: &EvaluationResult,
)
    ensures
        OneOfKeyword::Single(single).validates(value) == single.validates(value),
        OneOfKeyword::Multiple(multiple).validates(value) == multiple.validates(value),
        OneOfKeyword::Single(single).reports(value, location, tracker, error) == single.reports(
            value,
            location,
            tracker,
            error,
        ),
        OneOfKeyword::Multiple(multiple).reports(value, location, tracker, error)
            == multiple.reports(value, location, tracker, error),
        OneOfKeyword::Single(single).lists(value, location, tracker, errors) == single.lists(
            value,
            location,
            tracker,
            errors,
        ),
        OneOfKeyword::Multiple(multiple).lists(value, location, tracker, errors)
            == multiple.lists(value, location, tracker, errors),
        OneOfKeyword::Single(single).evaluates(value, location, tracker, result)
            == single.evaluates(value, location, tracker, result),
        OneOfKeyword::Multiple(multiple).evaluates(value, location, tracker, result)
            == multiple.evaluates(value, location, tracker, result),
{
}

/// Every form of the keyword takes the way of evaluation from what its subschemas tell.
pub proof fn the_way_of_evaluation_is_that_of_the_subschemas<V: Validate>(
    tracker: Option<&V::RefTracker>,
    location: &Location,
    path: &Location,
)
    ensures
        OneOfValidator::<V>::is_evaluation_path(tracker, location, path) == V::is_evaluation_path(
            tracker,
            location,
            path,
        ),
        SingleOneOfValidator::<V>::is_evaluation_path(tracker, location, path)
            == V::is_evaluation_path(tracker, location, path),
        OneOfKeyword::<V>::is_evaluation_path(tracker, location, path) == V::is_evaluation_path(
            tracker,
            location,
            path,
        ),
{
}

/// Whether the evaluation of a schema holds what the evaluation of its keyword found.
pub open spec fn holds_result(node: EvaluationNode, result: EvaluationResult) -> bool {
    &&& node.valid <==> result is Valid
    &&& node.children@ == children_of(result)
    &&& node.annotations == match result {
        EvaluationResult::Valid { annotations, .. } => annotations,
        EvaluationResult::Invalid { annotations, .. } => annotations,
    }
    &&& result is Valid ==> node.errors@.len() == 0
    &&& result matches EvaluationResult::Invalid { errors, .. } ==> node.errors == errors
}

/// The evaluation of a schema holds all that the evaluation of its keyword found, and names the
/// schema and the way to the value.
pub proof fn a_schema_keeps_what_its_keyword_found<V: Validate>(
    schema: SchemaNode<V>,
    value: &OwnedValue,
    location: &Location,
    tracker: Option<&V::RefTracker>,
    node: EvaluationNode,
)
    requires
        schema.evaluates(value, location, tracker, node),
    ensures
        node.schema_path@ == schema.location@,
        node.instance_path@ == location@,
        exists|result: EvaluationResult| #[trigger]
            schema.validator.evaluates(value, location, tracker, &result) && holds_result(
                node,
                result,
            ),
{
    let result = choose|result: EvaluationResult| #[trigger]
        schema.validator.evaluates(value, location, tracker, &result) && match result {
            EvaluationResult::Valid { annotations, children } => {
                node.valid && node.errors@.len() == 0 && node.children == children
                    && node.annotations == annotations
            },
            EvaluationResult::Invalid { errors, children, annotations } => {
                !node.valid && node.errors == errors && node.children == children
                    && node.annotations == annotations
            },
        };
    assert(holds_result(node, result));
}

/// Where no schema accepts the value, the evaluation is invalid and has one child for each
/// schema: an evaluation that the schema at that place gives.
pub proof fn where_none_accepts_all_are_evaluated<V: Validate>(
    validator: OneOfValidator<V>,
    value: &OwnedValue,
    location: &Location,
    tracker: Option<&V::RefTracker>,
    result: &EvaluationResult,
)
    requires
        validator.evaluates(value, location, tracker, result),
        accepting(validator.schemas@, view_of(value)).len() == 0,
    ensures
        *result matches EvaluationResult::Invalid { errors, children: _, annotations }
            && errors@.len() == 0 && annotations is None,
        children_of(*result).len() == validator.schemas@.len(),
        forall|i: int|
            0 <= i < validator.schemas@.len() ==> (#[trigger] validator.schemas@[i]).evaluates(
                value,
                location,
                tracker,
                children_of(*result)[i],
            ),
{
    exactly_one_is_one_of_the_accepting(validator.schemas@, view_of(value));
}

/// Where exactly one schema accepts the value, the evaluation has one child: an evaluation that
/// this schema gives, with every field as the schema gives it. The evaluation is as valid as the
/// child, and adds nothing of its own.
pub proof fn the_one_accepting_schema_is_evaluated_unchanged<V: Validate>(
    validator: OneOfValidator<V>,
    value: &OwnedValue,
    location: &Location,
    tracker: Option<&V::RefTracker>,
    result: &EvaluationResult,
    i: int,
)
    requires
        validator.evaluates(value, location, tracker, result),
        accepting(validator.schemas@, view_of(value)).len() == 1,
        accepting(validator.schemas@, view_of(value)).contains(i),
    ensures
        children_of(*result).len() == 1,
        validator.schemas@[i].evaluates(value, location, tracker, children_of(*result)[0]),
        *result is Valid <==> children_of(*result)[0].valid,
        *result matches EvaluationResult::Valid { annotations, .. } ==> annotations is None,
        *result matches EvaluationResult::Invalid { errors, annotations, .. } ==> errors@.len()
            == 0 && annotations is None,
{
    let schemas = validator.schemas@;
    exactly_one_is_one_of_the_accepting(schemas, view_of(value));
    let (k, child) = choose|k: int, child: EvaluationNode|
        0 <= k < schemas.len() && schemas[k].accepts(view_of(value))
            && #[trigger] schemas[k].evaluates(value, location, tracker, child) && result.wraps(
            child,
        );
    let set = accepting(schemas, view_of(value));
    accepting_is_finite(schemas, view_of(value));
    assert(set.contains(k));
    if k != i {
        assert(set.remove(i).contains(k));
        assert(set.remove(i).len() == 0);
        assert(set.remove(i) =~= Set::empty());
    }
    assert(children_of(*result)[0] == child);
}

/// The evaluation of the form for a single subschema has one child: an evaluation that the
/// subschema gives, with every field as the subschema gives it. The evaluation is as valid as
/// the child, and adds nothing of its own.
pub proof fn the_single_subschema_is_evaluated_unchanged<V: Validate>(
    validator: SingleOneOfValidator<V>,
    value: &OwnedValue,
    location: &Location,
    tracker: Option<&V::RefTracker>,
    result: &EvaluationResult,
)
    requires
        validator.evaluates(value, location, tracker, result),
    ensures
        children_of(*result).len() == 1,
        validator.node.evaluates(value, location, tracker, children_of(*result)[0]),
        *result is Valid <==> children_of(*result)[0].valid,
        *result matches EvaluationResult::Valid { annotations, .. } ==> annotations is None,
        *result matches EvaluationResult::Invalid { errors, annotations, .. } ==> errors@.len()
            == 0 && annotations is None,
{
    let child = choose|child: EvaluationNode| #[trigger]
        validator.node.evaluates(value, location, tracker, child) && result.wraps(child);
    assert(children_of(*result)[0] == child);
}

/// The places of the schemas whose evaluations count among the first `n`.
proof fn lemma_success_places<V: Validate>(
    schemas: Seq<SchemaNode<V>>,
    instance: crate::instance::InstanceRef<'_>,
    nodes: Seq<EvaluationNode>,
    n: nat,
) -> (places: Seq<int>)
    requires
        n <= schemas.len(),
        nodes.len() == schemas.len(),
    ensures
        places.len() == successes_among(schemas, instance, nodes, n).len(),
        forall|k: int|
            0 <= k < places.len() ==> 0 <= #[trigger] places[k] < n && schemas[places[k]].accepts(
                instance,
            ) && nodes[places[k]].valid && successes_among(schemas, instance, nodes, n)[k]
                == nodes[places[k]],
        forall|k: int, l: int| 0 <= k < l < places.len() ==> places[k] < places[l],
        forall|i: int|
            0 <= i < n && (#[trigger] schemas[i]).accepts(instance) && nodes[i].valid
                ==> places.contains(i),
    decreases n,
{
    if n == 0 {
        Seq::empty()
    } else {
        let before = lemma_success_places(schemas, instance, nodes, (n - 1) as nat);
        if schemas[n - 1].accepts(instance) && nodes[n - 1].valid {
            let places = before.push(n - 1);
            assert forall|i: int|
                0 <= i < n && (#[trigger] schemas[i]).accepts(instance)
                    && nodes[i].valid implies places.contains(i) by {
                if i < n - 1 {
                    let k = choose|k: int| 0 <= k < before.len() && before[k] == i;
                    assert(places[k] == i);
                } else {
                    assert(places[before.len() as int] == i);
                }
            }
            places
        } else {
            before
        }
    }
}

/// Whether evaluations are given by the schemas at some places, in the order of these places,
/// each of a schema that accepts the value, and each valid.
pub open spec fn evaluated_at<V: Validate>(
    schemas: Seq<SchemaNode<V>>,
    value: &OwnedValue,
    location: &Location,
    tracker: Option<&V::RefTracker>,
    children: Seq<EvaluationNode>,
    places: Seq<int>,
) -> bool {
    &&& places.len() == children.len()
    &&& forall|k: int|
        0 <= k < places.len() ==> accepting(schemas, view_of(value)).contains(#[trigger] places[k])
            && schemas[places[k]].evaluates(value, location, tracker, children[k])
            && children[k].valid
    &&& forall|k: int, l: int| 0 <= k < l < places.len() ==> places[k] < places[l]
    &&& forall|i: int|
        accepting(schemas, view_of(value)).contains(i) && !(#[trigger] places.contains(i))
            ==> exists|node: EvaluationNode| #[trigger]
            schemas[i].evaluates(value, location, tracker, node) && !node.valid
}

/// Where several schemas accept the value, the evaluation is invalid with one error, which says
/// so, and its children are valid evaluations of accepting schemas, in the order of the schemas;
/// an accepting schema is left out only where its own evaluation is not valid.
pub proof fn where_several_accept_their_evaluations_are_kept<V: Validate>(
    validator: OneOfValidator<V>,
    value: &OwnedValue,
    location: &Location,
    tracker: Option<&V::RefTracker>,
    result: &EvaluationResult,
)
    requires
        validator.evaluates(value, location, tracker, result),
        accepting(validator.schemas@, view_of(value)).len() >= 2,
    ensures
        *result matches EvaluationResult::Invalid { errors, children: _, annotations }
            && errors@.len() == 1 && errors@[0].keyword@ == "oneOf"@ && errors@[0].message@
            == "more than one subschema succeeded"@ && annotations is None,
        exists|places: Seq<int>| #[trigger]
            evaluated_at(
                validator.schemas@,
                value,
                location,
                tracker,
                children_of(*result),
                places,
            ),
{
    let schemas = validator.schemas@;
    let view = view_of(value);
    let children = children_of(*result);
    exactly_one_is_one_of_the_accepting(schemas, view);
    assert(accepting_evaluate(schemas, value, location, tracker, children));
    let nodes = choose|nodes: Seq<EvaluationNode>|
        {
            &&& nodes.len() == schemas.len()
            &&& forall|i: int|
                0 <= i < schemas.len() && schemas[i].accepts(view) ==> (
                #[trigger] schemas[i]).evaluates(value, location, tracker, nodes[i])
            &&& children == #[trigger] successes_among(schemas, view, nodes, schemas.len())
        };
    let places = lemma_success_places(schemas, view, nodes, schemas.len());
    assert forall|k: int| 0 <= k < places.len() implies accepting(schemas, view).contains(
        #[trigger] places[k],
    ) && schemas[places[k]].evaluates(value, location, tracker, children[k])
        && children[k].valid by {
        assert(schemas[places[k]].accepts(view));
    }
    assert forall|i: int|
        accepting(schemas, view).contains(i) && !(#[trigger] places.contains(i)) implies exists|
        node: EvaluationNode,
    | #[trigger] schemas[i].evaluates(value, location, tracker, node) && !node.valid by {
        assert(schemas[i].accepts(view));
        assert(schemas[i].evaluates(value, location, tracker, nodes[i]));
    }
    assert(evaluated_at(schemas, value, location, tracker, children, places));
}

/// An evaluation is invalid where no schema accepts the value, or several do.
pub proof fn an_evaluation_is_invalid_unless_exactly_one_accepts<V: Validate>(
    validator: OneOfValidator<V>,
    value: &OwnedValue,
    location: &Location,
    tracker: Option<&V::RefTracker>,
    result: &EvaluationResult,
)
    requires
        validator.evaluates(value, location, tracker, result),
        accepting(validator.schemas@, view_of(value)).len() != 1,
    ensures
        *result is Invalid,
{
    exactly_one_is_one_of_the_accepting(validator.schemas@, view_of(value));
}

/// What a keyword found out whose one subschema found out something is as valid as that, holds
/// it as its one child, and adds nothing of its own.
pub proof fn a_wrapped_evaluation_is_the_one_child(child: EvaluationNode, result: EvaluationResult)
    requires
        call_ensures(
            <EvaluationResult as From<EvaluationNode>>::from,
            (child,),
            result,
        ),
    ensures
        children_of(result) == seq![child],
        result is Valid <==> child.valid,
        result matches EvaluationResult::Valid { annotations, .. } ==> annotations is None,
        result matches EvaluationResult::Invalid { errors, annotations, .. } ==> errors@.len() == 0
            && annotations is None,
{
}

} // verus!
