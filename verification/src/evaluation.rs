//! What an evaluation finds out.

use crate::paths::Location;
use crate::value::OwnedValue;
use vstd::prelude::*;

verus! {

/// A keyword that failed, and why.
#[derive(Debug)]
pub struct ErrorDescription {
    pub keyword: String,
    pub message: String,
}

impl ErrorDescription {
    pub fn new(keyword: &str, message: String) -> (error: ErrorDescription)
        ensures
            error.keyword@ == keyword@,
            error.message == message,
    {
        ErrorDescription { keyword: keyword.to_owned(), message }
    }
}

/// What the evaluation of a schema found out.
#[derive(Debug)]
pub struct EvaluationNode {
    pub valid: bool,
    pub schema_path: Location,
    pub instance_path: Location,
    pub errors: Vec<ErrorDescription>,
    pub children: Vec<EvaluationNode>,
    pub annotations: Option<OwnedValue>,
}

/// What the evaluation of a keyword found out.
#[derive(Debug)]
pub enum EvaluationResult {
    Valid { annotations: Option<OwnedValue>, children: Vec<EvaluationNode> },
    Invalid {
        errors: Vec<ErrorDescription>,
        children: Vec<EvaluationNode>,
        annotations: Option<OwnedValue>,
    },
}

impl EvaluationResult {
    /// Whether this is what a keyword found out whose one subschema found out `child`:
    /// it is as valid as the subschema.
    pub open spec fn wraps(self, child: EvaluationNode) -> bool {
        match self {
            EvaluationResult::Valid { annotations, children } => child.valid && annotations is None
                && children@ == seq![child],
            EvaluationResult::Invalid { errors, children, annotations } => !child.valid
                && errors@.len() == 0 && children@ == seq![child] && annotations is None,
        }
    }
}

impl From<EvaluationNode> for EvaluationResult {
    /// What a keyword found out whose one subschema found out `child`.
    fn from(child: EvaluationNode) -> (result: Self)
        ensures
            result.wraps(child),
    {
        let valid = child.valid;
        let ghost node = child;
        let children: Vec<EvaluationNode> = vec![child];
        assert(children@ =~= seq![node]);
        if valid {
            EvaluationResult::Valid { annotations: None, children }
        } else {
            EvaluationResult::Invalid { errors: Vec::new(), children, annotations: None }
        }
    }
}

impl vstd::std_specs::convert::FromSpecImpl<EvaluationNode> for EvaluationResult {
    open spec fn obeys_from_spec() -> bool {
        false
    }

    open spec fn from_spec(child: EvaluationNode) -> Self {
        arbitrary()
    }
}

} // verus!
