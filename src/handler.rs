//! Composition nodes: a handler wrapped in middleware, and a handler bound
//! to a state value.
use vstd::prelude::*;

use std::sync::Arc;

verus! {

/// A handler `h` run inside middleware `m`: `m` receives each request
/// together with `h` as the rest of the chain.
pub struct Wrap<H, M> {
    h: H,
    m: M,
}

impl<H, M> Wrap<H, M> {
    pub closed spec fn inner(&self) -> H {
        self.h
    }

    pub closed spec fn layer(&self) -> M {
        self.m
    }

    /// `h` wrapped in `m`, which becomes the outermost layer.
    pub fn new(h: H, m: M) -> (r: Self)
        ensures
            r.inner() == h,
            r.layer() == m,
    {
        Wrap { h, m }
    }

    /// The wrapped handler: the rest of the chain as the middleware sees it.
    pub fn handler(&self) -> (r: &H)
        ensures
            *r == self.inner(),
    {
        &self.h
    }

    /// The middleware that runs first.
    pub fn middleware(&self) -> (r: &M)
        ensures
            *r == self.layer(),
    {
        &self.m
    }
}

/// A handler that runs `h` with the state `s` in scope.
pub struct WithState<H, S> {
    h: H,
    s: Arc<S>,
}

impl<H, S> WithState<H, S> {
    pub closed spec fn inner(&self) -> H {
        self.h
    }

    pub closed spec fn value(&self) -> Arc<S> {
        self.s
    }

    /// `h` bound to the state `s`.
    pub fn new(h: H, s: Arc<S>) -> (r: Self)
        ensures
            r.inner() == h,
            r.value() == s,
    {
        WithState { h, s }
    }

    /// The handler that runs with the state in scope.
    pub fn handler(&self) -> (r: &H)
        ensures
            *r == self.inner(),
    {
        &self.h
    }

    /// The state put in scope.
    pub fn state(&self) -> (r: &Arc<S>)
        ensures
            *r == self.value(),
    {
        &self.s
    }
}

} // verus!
