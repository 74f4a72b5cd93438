//! Why an instance is not valid.

use crate::paths::Location;
use crate::value::OwnedValue;
use vstd::prelude::*;

verus! {

/// The types of JSON values.
#[derive(Clone, Copy, Debug, PartialEq, Eq, Structural)]
pub enum JsonType {
    Array,
    Boolean,
    Integer,
    Null,
    Number,
    Object,
    String,
}

/// The way in which an instance is not valid.
#[derive(Debug)]
pub enum ValidationErrorKind<'i> {
    /// Not of the one type that is allowed.
    Type { expected: JsonType },
    /// Accepted by none of the subschemas of `oneOf`, with the errors of each.
    OneOfNotValid { context: Vec<Vec<ValidationError<'i>>> },
    /// Accepted by more than one of the subschemas of `oneOf`, with the errors of each.
    OneOfMultipleValid { context: Vec<Vec<ValidationError<'i>>> },
    /// Rejected by another keyword.
    Other { keyword: String },
}

/// An instance that is not valid, and why.
#[derive(Debug)]
pub struct ValidationError<'i> {
    pub schema_path: Location,
    pub evaluation_path: Location,
    pub instance_path: Location,
    pub instance: &'i OwnedValue,
    pub kind: ValidationErrorKind<'i>,
}

impl<'i> ValidationError<'i> {
    /// The value is not of the one type that is allowed.
    pub fn single_type_error(
        schema_path: Location,
        evaluation_path: Location,
        instance_path: Location,
        instance: &'i OwnedValue,
        expected: JsonType,
    ) -> (error: ValidationError<'i>)
        ensures
            error == (ValidationError {
                schema_path,
                evaluation_path,
                instance_path,
                instance,
                kind: ValidationErrorKind::Type { expected },
            }),
    {
        ValidationError {
            schema_path,
            evaluation_path,
            instance_path,
            instance,
            kind: ValidationErrorKind::Type { expected },
        }
    }

    /// No subschema of `oneOf` accepts the value.
    pub fn one_of_not_valid(
        schema_path: Location,
        evaluation_path: Location,
        instance_path: Location,
        instance: &'i OwnedValue,
        context: Vec<Vec<ValidationError<'i>>>,
    ) -> (error: ValidationError<'i>)
        ensures
            error == (ValidationError {
                schema_path,
                evaluation_path,
                instance_path,
                instance,
                kind: ValidationErrorKind::OneOfNotValid { context },
            }),
    {
        ValidationError {
            schema_path,
            evaluation_path,
            instance_path,
            instance,
            kind: ValidationErrorKind::OneOfNotValid { context },
        }
    }

    /// More than one subschema of `oneOf` accepts the value.
    pub fn one_of_multiple_valid(
        schema_path: Location,
        evaluation_path: Location,
        instance_path: Location,
        instance: &'i OwnedValue,
        context: Vec<Vec<ValidationError<'i>>>,
    ) -> (error: ValidationError<'i>)
        ensures
            error == (ValidationError {
                schema_path,
                evaluation_path,
                instance_path,
                instance,
                kind: ValidationErrorKind::OneOfMultipleValid { context },
            }),
    {
        ValidationError {
            schema_path,
            evaluation_path,
            instance_path,
            instance,
            kind: ValidationErrorKind::OneOfMultipleValid { context },
        }
    }
}

} // verus!
