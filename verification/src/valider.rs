//! A JSON validator: how the outcome of a validation is reported to the
//! process that asked for it.
use vstd::prelude::*;
use crate::err::{ErrorClass, TokenizeError, TokenizeErrorView};

verus! {

/// Exit code returned when the input is a valid JSON document.
pub const EXIT_VALID: i32 = 0;

/// Exit code returned when the input isn't a valid JSON document.
pub const EXIT_INVALID: i32 = 1;

/// Exit code returned when an internal error in the parser occurred
pub const EXIT_FAILURE: i32 = 2;

/// The exit code that reports the outcome of a validation.
pub open spec fn exit_code_of(outcome: Result<(), TokenizeErrorView>) -> i32 {
    match outcome {
        Ok(()) => EXIT_VALID,
        Err(e) => if e.class() == ErrorClass::Internal {
            EXIT_FAILURE
        } else {
            EXIT_INVALID
        },
    }
}

/// The exit code that reports the outcome of a validation: whether the
/// input is valid, was rejected, or brought a defect of the parser to
/// light.
pub fn exit_code(outcome: &Result<(), TokenizeError>) -> (code: i32)
    ensures
        code == exit_code_of(crate::ast::validated(*outcome)),
{
    match outcome {
        Ok(()) => EXIT_VALID,
        Err(e) => match e.class() {
            ErrorClass::Internal => EXIT_FAILURE,
            _ => EXIT_INVALID,
        },
    }
}

} // verus!
