//! Contexts handed to code that runs inside the reactivity runtime.

use vstd::prelude::*;
use core::marker::PhantomData;
use vstd::std_specs::cmp::PartialEqSpec;

verus! {

/// Effect run context
pub struct EffectRunCtx<'a> {
    _phantom: PhantomData<&'a ()>,
}

impl<'a> EffectRunCtx<'a> {
    /// Creates new context for running an effect
    pub fn new() -> (res: Self) {
        EffectRunCtx { _phantom: PhantomData }
    }
}

/// Context for updating the signals of an enum split value: the outer
/// signal, which the split signals write back into.
pub struct EnumSplitValueUpdateCtx<'a, S> {
    /// Outer signal
    outer_signal: S,
    _phantom: PhantomData<&'a ()>,
}

impl<'a, S> EnumSplitValueUpdateCtx<'a, S> {
    /// The outer signal.
    pub closed spec fn outer_spec(&self) -> S {
        self.outer_signal
    }

    /// Creates a new context.
    pub fn new(outer_signal: S) -> (res: Self)
        ensures
            res.outer_spec() == outer_signal,
    {
        EnumSplitValueUpdateCtx { outer_signal, _phantom: PhantomData }
    }

    /// The outer signal
    pub fn outer_signal(&self) -> (res: &S)
        ensures
            *res == self.outer_spec(),
    {
        &self.outer_signal
    }
}

/// Whether an enum split signal must tell its readers that the value
/// changed variant: the variant it had before (none on the first run)
/// differs from the new one.
pub fn kind_changed<K: PartialEq>(prev: &Option<K>, new_kind: &K) -> (res: bool)
    ensures
        prev.is_none() ==> res,
        K::obeys_eq_spec() ==> (res <==> !(match *prev {
            Some(p) => p.eq_spec(new_kind),
            None => false,
        })),
{
    match prev {
        Some(p) => !(*p == *new_kind),
        None => true,
    }
}

} // verus!
