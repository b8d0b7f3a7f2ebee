//! Handlers and middleware made from plain functions. What calling them
//! means is defined where the handler traits live; here they are the typed
//! holders of the functions.
use vstd::prelude::*;

use std::marker::PhantomData;

verus! {

/// A handler made from a function of the request.
pub struct HandlerFn<F> {
    f: F,
}

/// A handler made from `f`, a function of the request.
pub fn handler<F>(f: F) -> (r: HandlerFn<F>)
    ensures
        r.func() == f,
{
    HandlerFn { f }
}

impl<F> HandlerFn<F> {
    pub closed spec fn func(&self) -> F {
        self.f
    }

    /// The function this handler calls.
    pub fn function(&self) -> (r: &F)
        ensures
            *r == self.func(),
    {
        &self.f
    }
}

/// A handler made from a function of the state of type `S` in scope and the
/// request.
pub struct RefHandlerFn<S, F> {
    f: F,
    _marker: PhantomData<S>,
}

/// A handler made from `f`, a function of the state of type `S` in scope and
/// the request.
pub fn ref_handler<S, F>(f: F) -> (r: RefHandlerFn<S, F>)
    ensures
        r.func() == f,
{
    RefHandlerFn { f, _marker: PhantomData }
}

impl<S, F> RefHandlerFn<S, F> {
    pub closed spec fn func(&self) -> F {
        self.f
    }

    /// The function this handler calls.
    pub fn function(&self) -> (r: &F)
        ensures
            *r == self.func(),
    {
        &self.f
    }
}

/// Middleware made from a function of the request and the rest of the chain.
pub struct MiddlewareFn<F> {
    f: F,
}

/// Middleware made from `f`, a function of the request and the rest of the
/// chain.
pub fn middleware<F>(f: F) -> (r: MiddlewareFn<F>)
    ensures
        r.func() == f,
{
    MiddlewareFn { f }
}

impl<F> MiddlewareFn<F> {
    pub closed spec fn func(&self) -> F {
        self.f
    }

    /// The function this middleware calls.
    pub fn function(&self) -> (r: &F)
        ensures
            *r == self.func(),
    {
        &self.f
    }
}

/// Middleware made from a function of the state of type `S` in scope, the
/// request and the rest of the chain.
pub struct RefMiddlewareFn<S, F> {
    f: F,
    _marker: PhantomData<S>,
}

/// Middleware made from `f`, a function of the state of type `S` in scope,
/// the request and the rest of the chain.
pub fn ref_middleware<S, F>(f: F) -> (r: RefMiddlewareFn<S, F>)
    ensures
        r.func() == f,
{
    RefMiddlewareFn { f, _marker: PhantomData }
}

impl<S, F> RefMiddlewareFn<S, F> {
    pub closed spec fn func(&self) -> F {
        self.f
    }

    /// The function this middleware calls.
    pub fn function(&self) -> (r: &F)
        ensures
            *r == self.func(),
    {
        &self.f
    }
}

} // verus!
