//! Effect stack
//!
//! The effects currently running, innermost last. The top is the effect that
//! gathers the dependencies used right now.

use vstd::prelude::*;

verus! {

/// Effect stack
pub struct EffectStack {
    stack: Vec<u64>,
}

impl View for EffectStack {
    type V = Seq<u64>;

    closed spec fn view(&self) -> Seq<u64> {
        self.stack@
    }
}

/// Top of a stack of effects.
pub open spec fn top_effect(s: Seq<u64>) -> Option<u64> {
    if s.len() == 0 {
        None
    } else {
        Some(s.last())
    }
}

impl EffectStack {
    /// Creates a new, empty, effect stack
    pub fn new() -> (res: Self)
        ensures
            res@ == Seq::<u64>::empty(),
    {
        EffectStack { stack: Vec::new() }
    }

    /// Pushes an effect to the stack.
    pub fn push(&mut self, effect: u64)
        ensures
            final(self)@ == old(self)@.push(effect),
    {
        self.stack.push(effect);
    }

    /// Pops an effect from the stack
    pub fn pop(&mut self)
        requires
            old(self)@.len() > 0,
        ensures
            final(self)@ == old(self)@.drop_last(),
    {
        self.stack.pop();
    }

    /// Returns the top effect of the stack
    pub fn top(&self) -> (res: Option<u64>)
        ensures
            res == top_effect(self@),
    {
        let n = self.stack.len();
        if n == 0 {
            None
        } else {
            Some(self.stack[n - 1])
        }
    }

    /// Number of effects on the stack.
    pub fn len(&self) -> (res: usize)
        ensures
            res == self@.len(),
    {
        self.stack.len()
    }
}

} // verus!
