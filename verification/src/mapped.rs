//! Mapped signals: how the output of a fallible mapping follows its input.
//!
//! A mapped signal keeps, as its output, either a signal holding the mapped
//! value or the error the mapping gave. Each time the input changes, the
//! mapping runs again, and the output changes as `output_update` decides.

use vstd::prelude::*;

verus! {

/// How a mapped signal's output changes after the mapping ran again.
pub enum OutputChange<V, E> {
    /// Write the value into the output signal already there, with the
    /// write-back into the input suppressed.
    WriteExisting(V),
    /// Replace the output by a new signal holding the value.
    NewSignal(V),
    /// Replace the output by the mapping's error.
    Fail(E),
}

/// The change to a mapped signal's output, and whether those who fetched the
/// output must be told.
pub struct OutputUpdate<V, E> {
    /// What becomes of the output
    pub change: OutputChange<V, E>,
    /// Whether the output itself was swapped for another one after a first
    /// one existed, so that readers of the output run again
    pub needs_trigger: bool,
}

/// Decides what becomes of a mapped signal's output `prev` (`None` before
/// the first run) when the mapping gives `value`.
///
/// A value that follows a value is written into the signal already handed
/// out, and nobody who fetched the output runs again. Any other change
/// replaces the output, and, unless it is the first run, tells those who
/// fetched it.
pub fn output_update<H, V, E>(prev: &Option<Result<H, E>>, value: Result<V, E>) -> (res: OutputUpdate<V, E>)
    ensures
        match value {
            Ok(v) => match prev {
                Some(Ok(_)) => res.change == OutputChange::<V, E>::WriteExisting(v) && !res.needs_trigger,
                _ => res.change == OutputChange::<V, E>::NewSignal(v) && res.needs_trigger == prev.is_some(),
            },
            Err(e) => res.change == OutputChange::<V, E>::Fail(e) && res.needs_trigger == prev.is_some(),
        },
{
    match value {
        Ok(v) => match prev {
            Some(Ok(_)) => OutputUpdate { change: OutputChange::WriteExisting(v), needs_trigger: false },
            Some(Err(_)) => OutputUpdate { change: OutputChange::NewSignal(v), needs_trigger: true },
            None => OutputUpdate { change: OutputChange::NewSignal(v), needs_trigger: false },
        },
        Err(e) => OutputUpdate { change: OutputChange::Fail(e), needs_trigger: prev.is_some() },
    }
}

} // verus!
