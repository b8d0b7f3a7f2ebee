//! Response adapters: a responder with its status overridden, and a value
//! answered as JSON.
use vstd::prelude::*;

verus! {

/// A responder whose successful response gets `status`.
pub struct WithStatus<R> {
    r: R,
    status: hyper::StatusCode,
}

impl<R> WithStatus<R> {
    pub closed spec fn responder(&self) -> R {
        self.r
    }

    pub closed spec fn code(&self) -> hyper::StatusCode {
        self.status
    }

    /// `r` answered with `status`.
    pub fn new(r: R, status: hyper::StatusCode) -> (w: Self)
        ensures
            w.responder() == r,
            w.code() == status,
    {
        WithStatus { r, status }
    }

    /// The responder and the status, taken apart.
    pub fn into_parts(self) -> (p: (R, hyper::StatusCode))
        ensures
            p.0 == self.responder(),
            p.1 == self.code(),
    {
        (self.r, self.status)
    }
}

/// A value answered as a JSON body.
pub struct Json<T>(pub T);

} // verus!
