//! Loading state of an async signal: the loaded value, and the handle of the
//! task that loads it, if one runs.
//!
//! Spawning the task, awaiting it and waking the waiters belong to the
//! executor; what an async signal decides around them is here.

use vstd::prelude::*;
use futures::future::AbortHandle;
use crate::abort::{AbortedTask, abort_task};

verus! {

#[verifier::external_type_specification]
#[verifier::external_body]
pub struct ExAbortHandle(AbortHandle);

/// Loader: what an async signal runs to load its value.
pub trait Loader {
    /// The loading future
    type Fut: core::future::Future<Output = Self::Output>;
    /// The loaded value
    type Output;

    /// Starts loading: returns the future that yields the value.
    fn load(&mut self) -> Self::Fut;
}

/// What borrowing an async signal's value does.
#[derive(PartialEq, Eq, Structural, Debug)]
pub enum BorrowAction {
    /// The value is there: hand it out.
    Loaded,
    /// No value, and no task loads one: start loading, hand out nothing.
    StartLoading,
    /// No value, and a task loads it already: hand out nothing.
    WaitLoading,
}

/// Loading state of an async signal
pub struct LoadState<V> {
    /// Value
    value: Option<V>,
    /// Handle of the loading task
    handle: Option<AbortHandle>,
    /// Records of the tasks this state aborted, in order.
    aborted: Ghost<Seq<AbortedTask>>,
}

/// The handles of the aborted tasks `records` stand for, in order.
pub open spec fn aborted_handles(records: Seq<AbortedTask>) -> Seq<AbortHandle> {
    records.map_values(|t: AbortedTask| t.handle())
}

/// Stopping the loading of `before` gave `after` and `had`: `had` says
/// whether a task was loading; if one was, its handle is recorded as aborted
/// after those aborted before, else nothing was aborted; no task loads any
/// more, and the value is kept.
pub open spec fn stopped<V>(before: LoadState<V>, after: LoadState<V>, had: bool) -> bool {
    &&& had == before.loading()
    &&& !after.loading()
    &&& after.value_spec() == before.value_spec()
    &&& after.aborted() == (match before.task() {
        Some(h) => before.aborted().push(h),
        None => before.aborted(),
    })
}

impl<V> LoadState<V> {
    /// The loaded value, if any.
    pub closed spec fn value_spec(&self) -> Option<V> {
        self.value
    }

    /// Whether a task loads the value.
    pub closed spec fn loading(&self) -> bool {
        self.handle is Some
    }

    /// The handle of the task that loads the value, if one does.
    pub closed spec fn task(&self) -> Option<AbortHandle> {
        self.handle
    }

    /// The handles of the tasks this state aborted, oldest first. Each was
    /// aborted: only aborting a task records it.
    pub closed spec fn aborted(&self) -> Seq<AbortHandle> {
        aborted_handles(self.aborted@)
    }

    /// A task loads the value exactly when there is a task's handle.
    pub proof fn lemma_loading_task(&self)
        ensures
            self.loading() <==> self.task() is Some,
    {
    }

    /// Creates the state of a signal that loaded nothing yet and loads nothing.
    pub fn new() -> (res: Self)
        ensures
            res.value_spec() is None,
            !res.loading(),
            res.aborted() == Seq::<AbortHandle>::empty(),
    {
        let res = LoadState { value: None, handle: None, aborted: Ghost(Seq::empty()) };
        assert(res.aborted() =~= Seq::<AbortHandle>::empty());
        res
    }

    /// Returns if there exists a loading future.
    pub fn is_loading(&self) -> (res: bool)
        ensures
            res == self.loading(),
    {
        self.handle.is_some()
    }

    /// Stops the loading future, aborting its task.
    ///
    /// Returns if any future existed. The value stays as it was.
    pub fn stop_loading(&mut self) -> (had: bool)
        ensures
            stopped(*old(self), *final(self), had),
    {
        let handle = self.handle.take();
        match handle {
            Some(handle) => {
                let record = abort_task(&handle);
                proof {
                    let before = self.aborted@;
                    self.aborted = Ghost(before.push(record));
                    assert(aborted_handles(before.push(record)) =~= aborted_handles(before).push(handle));
                }
                true
            },
            None => false,
        }
    }

    /// Records the task that now loads the value, unless a task loads it
    /// already: then nothing changes and `handle` is let go.
    ///
    /// Returns whether the new task was recorded.
    pub fn start_loading(&mut self, handle: AbortHandle) -> (started: bool)
        ensures
            started == !old(self).loading(),
            !started ==> *final(self) == *old(self),
            started ==> final(self).loading() && final(self).value_spec() == old(self).value_spec(),
            started ==> final(self).task() == Some(handle),
            final(self).aborted() == old(self).aborted(),
    {
        if self.handle.is_some() {
            return false;
        }
        self.handle = Some(handle);
        true
    }

    /// Stops the current task, if any, aborting it, so that a new one can
    /// start.
    ///
    /// Returns whether a future already existed.
    pub fn restart_loading(&mut self) -> (had: bool)
        ensures
            stopped(*old(self), *final(self), had),
    {
        self.stop_loading()
    }

    /// Records the value a task loaded: it replaces any value there was,
    /// and nothing loads any more.
    pub fn finish(&mut self, value: V)
        ensures
            final(self).value_spec() == Some(value),
            !final(self).loading(),
            final(self).aborted() == old(self).aborted(),
    {
        self.value = Some(value);
        self.handle = None;
    }

    /// Records that a task ended without a value, because it was aborted.
    pub fn abandon(&mut self)
        ensures
            final(self).value_spec() == old(self).value_spec(),
            !final(self).loading(),
            final(self).aborted() == old(self).aborted(),
    {
        self.handle = None;
    }

    /// The loaded value, if any.
    pub fn value(&self) -> (res: Option<&V>)
        ensures
            res == (match self.value_spec() {
                Some(v) => Some(&v),
                None => None,
            }),
    {
        self.value.as_ref()
    }

    /// The loaded value, if any, to change in place.
    pub fn value_mut(&mut self) -> (res: Option<&mut V>)
        ensures
            res is Some <==> old(self).value_spec() is Some,
            res matches Some(r) ==> *r == old(self).value_spec().unwrap()
                && final(self).value_spec() == Some(*final(r)),
            res is None ==> final(self).value_spec() is None,
            final(self).loading() == old(self).loading(),
            final(self).task() == old(self).task(),
            final(self).aborted() == old(self).aborted(),
    {
        self.value.as_mut()
    }

    /// Whether a value was loaded.
    pub fn is_loaded(&self) -> (res: bool)
        ensures
            res == self.value_spec().is_some(),
    {
        self.value.is_some()
    }

    /// What borrowing the value does: hand it out if loaded, else start
    /// loading unless a task loads it already.
    pub fn borrow_action(&self) -> (res: BorrowAction)
        ensures
            self.value_spec() is Some ==> res == BorrowAction::Loaded,
            self.value_spec() is None && !self.loading() ==> res == BorrowAction::StartLoading,
            self.value_spec() is None && self.loading() ==> res == BorrowAction::WaitLoading,
    {
        if self.value.is_some() {
            BorrowAction::Loaded
        } else if self.handle.is_some() {
            BorrowAction::WaitLoading
        } else {
            BorrowAction::StartLoading
        }
    }
}

/// Stopping or restarting the loading while a task loads aborts exactly
/// that task: it is the last one recorded as aborted, after those aborted
/// before, and no task loads any more. With no task loading, nothing is
/// aborted. The value is kept either way.
pub proof fn law_stop_aborts_running_task<V>(before: LoadState<V>, after: LoadState<V>, had: bool)
    requires
        stopped(before, after, had),
    ensures
        had <==> before.task() is Some,
        before.task() matches Some(h) ==> {
            &&& after.aborted().len() == before.aborted().len() + 1
            &&& after.aborted().last() == h
            &&& after.aborted().drop_last() == before.aborted()
        },
        before.task() is None ==> after.aborted() == before.aborted(),
        after.task() is None,
        after.value_spec() == before.value_spec(),
{
    before.lemma_loading_task();
    after.lemma_loading_task();
    if let Some(h) = before.task() {
        assert(before.aborted().push(h).drop_last() =~= before.aborted());
    }
}

/// A task recorded by starting to load is the one the next stop or restart
/// aborts: starting with `handle` and then restarting reports that a task
/// was loading and records `handle` as aborted.
pub proof fn law_restart_aborts_started_task<V>(started: LoadState<V>, after: LoadState<V>, had: bool, handle: AbortHandle)
    requires
        started.task() == Some(handle),
        stopped(started, after, had),
    ensures
        had,
        after.aborted().last() == handle,
        !after.loading(),
{
    law_stop_aborts_running_task(started, after, had);
}

} // verus!
