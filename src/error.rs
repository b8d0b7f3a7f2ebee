//! Errors that carry an HTTP status.
use vstd::prelude::*;

verus! {

#[verifier::external_type_specification]
#[verifier::external_body]
pub struct ExStatusCode(hyper::StatusCode);

/// An error that answers with a status code, and its reason phrase as body.
#[derive(Debug)]
pub struct StatusError {
    pub status: hyper::StatusCode,
}

impl StatusError {
    /// The error that answers with `status`.
    pub fn new(status: hyper::StatusCode) -> (r: Self)
        ensures
            r.status == status,
    {
        Self { status }
    }
}

} // verus!
