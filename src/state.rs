//! Scoped application state: one slot holding the innermost value entered,
//! which `enter` shadows for the extent of a computation and then restores.
use vstd::prelude::*;

verus! {

/// The current-state slot of one execution context.
pub struct StateSlot<V> {
    current: Option<V>,
}

/// The slot that holds `v`.
pub closed spec fn slot_holding<V>(v: Option<V>) -> StateSlot<V> {
    StateSlot { current: v }
}

/// The slot that holds `v` has `v` in scope.
pub broadcast proof fn lemma_slot_holding<V>(v: Option<V>)
    ensures
        #[trigger] slot_holding(v).view() == v,
{
}

impl<V> StateSlot<V> {
    /// The value currently in scope.
    pub closed spec fn view(&self) -> Option<V> {
        self.current
    }

    /// A slot with nothing in scope.
    pub fn new() -> (r: Self)
        ensures
            r.view() is None,
    {
        StateSlot { current: None }
    }

    /// The innermost value in scope, if any.
    pub fn inject(&self) -> (r: Option<&V>)
        ensures
            match self.view() {
                Some(v) => r is Some && *r.unwrap() == v,
                None => r is None,
            },
    {
        match &self.current {
            Some(v) => Some(v),
            None => None,
        }
    }

    /// Puts `v` in scope and hands back what was there.
    pub fn replace(&mut self, v: Option<V>) -> (r: Option<V>)
        ensures
            r == old(self).view(),
            final(self).view() == v,
    {
        let prev = self.current.take();
        self.current = v;
        prev
    }
}

/// Runs `f` on `slot` with `state` in scope, then puts back in the slot that
/// `f` hands back what was in scope before, whatever `f` left there; returns
/// that slot and what `f` returned. Scopes nest by calling `enter` inside `f`.
pub fn enter<V, R, F: FnOnce(StateSlot<V>) -> (StateSlot<V>, R)>(slot: StateSlot<V>, state: V, f: F) -> (r: (StateSlot<V>, R))
    requires
        call_requires(f, (slot_holding(Some(state)),)),
    ensures
        r.0.view() == slot.view(),
        exists|s: StateSlot<V>| #[trigger] call_ensures(f, (slot_holding(Some(state)),), (s, r.1)),
{
    let mut slot = slot;
    let prev = slot.replace(Some(state));
    proof {
        assert(slot == slot_holding(Some(state)));
    }
    let out = f(slot);
    let ghost handed = out;
    let (mut back, res) = out;
    back.replace(prev);
    let ret = (back, res);
    proof {
        assert(handed == (handed.0, ret.1));
        assert(call_ensures(f, (slot_holding(Some(state)),), (handed.0, ret.1)));
    }
    ret
}

} // verus!
