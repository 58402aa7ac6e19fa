//! Run queue
//!
//! Effects waiting to be run, in the order they were (last) queued, each at
//! most once. Executions of triggers hold a reference count on the queue; when
//! the last one is released the queue is drained by a single executor.

use vstd::prelude::*;
use std::collections::HashMap;
use std::cmp::Reverse;
use priority_queue::PriorityQueue;
use crate::dep_graph::EffectDepInfo;

verus! {

broadcast use vstd::std_specs::hash::group_hash_axioms;

#[verifier::external_type_specification]
#[verifier::external_body]
#[verifier::reject_recursive_types(I)]
#[verifier::reject_recursive_types(P)]
#[verifier::reject_recursive_types(H)]
pub struct ExPriorityQueue<I, P, H>(PriorityQueue<I, P, H>);

#[verifier::external_type_specification]
#[verifier::external_body]
#[verifier::reject_recursive_types(T)]
pub struct ExReverse<T>(Reverse<T>);

/// Queue of effect ids, each with a reversed sequence number as priority.
pub type EffectQueue = PriorityQueue<u64, Reverse<usize>>;

/// An item popped from the queue, with the number inside its priority.
pub struct QueueEntry {
    pub item: u64,
    pub seq: usize,
}

/// The queue's contents: each queued item with the number inside its `Reverse` priority.
pub uninterp spec fn queued_items(q: EffectQueue) -> Map<u64, usize>;

/// Calls `PriorityQueue::new`: the new queue holds nothing.
#[verifier::external_body]
fn queue_new() -> (q: EffectQueue)
    ensures
        queued_items(q) == nothing_queued(),
{
    PriorityQueue::new()
}

/// Calls `PriorityQueue::is_empty`: true exactly when no item is queued.
#[verifier::external_body]
fn queue_is_empty(q: &EffectQueue) -> (res: bool)
    ensures
        res == (queued_items(*q) == nothing_queued()),
{
    q.is_empty()
}

/// Calls `PriorityQueue::push_decrease` with priority `Reverse(seq)`.
///
/// A new item is inserted. A present item whose priority is higher (a smaller
/// `seq`, since the priority is reversed) gets the new priority and its old one
/// is returned; otherwise nothing changes and the given priority is returned.
/// The stored item itself is never replaced.
#[verifier::external_body]
fn queue_push_decrease(q: &mut EffectQueue, item: u64, seq: usize) -> (res: Option<usize>)
    ensures
        !queued_items(*old(q)).contains_key(item) ==> res is None
            && queued_items(*final(q)) == queued_items(*old(q)).insert(item, seq),
        queued_items(*old(q)).contains_key(item) && queued_items(*old(q))[item] < seq ==>
            res == Some(queued_items(*old(q))[item])
            && queued_items(*final(q)) == queued_items(*old(q)).insert(item, seq),
        queued_items(*old(q)).contains_key(item) && seq <= queued_items(*old(q))[item] ==>
            res == Some(seq) && queued_items(*final(q)) == queued_items(*old(q)),
{
    match q.push_decrease(item, Reverse(seq)) {
        Some(Reverse(p)) => Some(p),
        None => None,
    }
}

/// Calls `PriorityQueue::pop`: removes an item of greatest priority, that is,
/// of smallest number inside its `Reverse`.
#[verifier::external_body]
fn queue_pop(q: &mut EffectQueue) -> (res: Option<QueueEntry>)
    ensures
        res is None <==> queued_items(*old(q)) == nothing_queued(),
        res is None ==> queued_items(*final(q)) == queued_items(*old(q)),
        res matches Some(e) ==> {
            let item = e.item;
            let seq = e.seq;
            &&& queued_items(*old(q)).contains_key(item)
            &&& queued_items(*old(q))[item] == seq
            &&& forall|j: u64| #[trigger] queued_items(*old(q)).contains_key(j) ==> seq <= queued_items(*old(q))[j]
            &&& queued_items(*final(q)) == queued_items(*old(q)).remove(item)
        },
{
    match q.pop() {
        Some((item, Reverse(p))) => Some(QueueEntry { item, seq: p }),
        None => None,
    }
}

/// Abstract state of the run queue.
pub struct RunQueueState {
    /// Queued effects, each with the sequence number of its last queueing.
    pub queued: Map<u64, usize>,
    /// Dependency info kept for each queued effect.
    pub infos: Map<u64, Seq<EffectDepInfo>>,
    /// Next sequence number.
    pub next: usize,
    /// Number of live executions.
    pub ref_count: usize,
    /// Whether the queue is currently being drained.
    pub is_exec: bool,
}

/// Execution guard
///
/// Handed out by [`dec_ref`] to the one executor that drains the queue;
/// hand it back to [`end_exec`] when done.
pub struct ExecGuard {
    _private: (),
}

/// Run queue
pub struct RunQueue {
    queue: EffectQueue,
    infos: HashMap<u64, Vec<EffectDepInfo>>,
    next: usize,
    ref_count: usize,
    is_exec: bool,
}

/// A queue holding nothing.
pub open spec fn nothing_queued() -> Map<u64, usize> {
    Map::empty()
}

/// No dependency info.
pub open spec fn no_infos() -> Map<u64, Seq<EffectDepInfo>> {
    Map::empty()
}

/// The queue after pushing `sub` with `info`: the effect goes to the back,
/// and keeps the info it had if it was already queued.
pub open spec fn queue_push(q: RunQueueState, sub: u64, info: Seq<EffectDepInfo>) -> RunQueueState {
    RunQueueState {
        queued: q.queued.insert(sub, q.next),
        infos: if q.queued.contains_key(sub) { q.infos } else { q.infos.insert(sub, info) },
        next: (q.next + 1) as usize,
        ..q
    }
}

/// The item with the smallest sequence number in `queued`.
pub open spec fn is_first(queued: Map<u64, usize>, item: u64) -> bool {
    &&& queued.contains_key(item)
    &&& forall|j: u64| #[trigger] queued.contains_key(j) ==> queued[item] <= queued[j]
}

impl RunQueue {
    pub closed spec fn view(&self) -> RunQueueState {
        RunQueueState {
            queued: queued_items(self.queue),
            infos: self.infos@.map_values(|v: Vec<EffectDepInfo>| v@),
            next: self.next,
            ref_count: self.ref_count,
            is_exec: self.is_exec,
        }
    }

    /// Internal consistency: every queued effect has its info, and sequence
    /// numbers are below `next` and distinct.
    pub closed spec fn wf(&self) -> bool {
        let q = queued_items(self.queue);
        &&& q.dom().finite()
        &&& q.dom() == self.infos@.dom()
        &&& forall|i: u64| #[trigger] q.contains_key(i) ==> q[i] < self.next
        &&& forall|i: u64, j: u64| #[trigger] q.contains_key(i) && #[trigger] q.contains_key(j) && i != j ==> q[i] != q[j]
    }

    /// In a well-formed run queue, every queued effect's sequence number is
    /// below the next one, no two queued effects share one, and finitely
    /// many effects are queued.
    pub proof fn lemma_queued_below_next(&self)
        requires
            self.wf(),
        ensures
            forall|i: u64| #[trigger] self.view().queued.contains_key(i) ==> self.view().queued[i] < self.view().next,
            forall|i: u64, j: u64| #[trigger] self.view().queued.contains_key(i) && #[trigger] self.view().queued.contains_key(j)
                && i != j ==> self.view().queued[i] != self.view().queued[j],
            self.view().queued.dom().finite(),
    {
    }

    /// Creates an empty run queue
    pub fn new() -> (res: Self)
        ensures
            res.wf(),
            res.view().queued == nothing_queued(),
            res.view().infos == no_infos(),
            res.view().next == 0,
            res.view().ref_count == 0,
            !res.view().is_exec,
    {
        let res = RunQueue { queue: queue_new(), infos: HashMap::new(), next: 0, ref_count: 0, is_exec: false };
        assert(res.view().infos =~= no_infos());
        res
    }

    /// Whether no effect is queued.
    pub fn is_empty(&self) -> (res: bool)
        ensures
            res == (self.view().queued == nothing_queued()),
    {
        queue_is_empty(&self.queue)
    }

    /// Number of live executions.
    pub fn ref_count(&self) -> (res: usize)
        ensures
            res == self.view().ref_count,
    {
        self.ref_count
    }

    /// Next sequence number.
    pub fn next(&self) -> (res: usize)
        ensures
            res == self.view().next,
    {
        self.next
    }

    /// Whether the queue is currently being drained.
    pub fn is_exec(&self) -> (res: bool)
        ensures
            res == self.view().is_exec,
    {
        self.is_exec
    }
}

/// Increases the reference count of the queue
pub fn inc_ref(queue: &mut RunQueue)
    requires
        old(queue).wf(),
        old(queue).view().ref_count < usize::MAX,
    ensures
        final(queue).wf(),
        final(queue).view() == (RunQueueState { ref_count: (old(queue).view().ref_count + 1) as usize, ..old(queue).view() }),
{
    queue.ref_count = queue.ref_count + 1;
}

/// The queue after one execution is released, and whether that release
/// hands out the guard for draining it: it does when this was the last
/// execution, something is queued and nobody drains the queue already.
pub open spec fn released(q: RunQueueState) -> (RunQueueState, bool) {
    let starts = q.ref_count == 1 && q.queued != nothing_queued() && !q.is_exec;
    (RunQueueState { ref_count: (q.ref_count - 1) as usize, is_exec: q.is_exec || starts, ..q }, starts)
}

/// Decreases the reference count of the queue.
///
/// Returns a guard for executing all effects if this was the last execution
/// released, the queue holds something and nobody is draining it already.
/// Executions created afterwards won't run anything and will only add to the
/// queue until the guard is handed back.
pub fn dec_ref(queue: &mut RunQueue) -> (guard: Option<ExecGuard>)
    requires
        old(queue).wf(),
        old(queue).view().ref_count > 0,
    ensures
        final(queue).wf(),
        guard is Some <==> (old(queue).view().ref_count == 1
            && old(queue).view().queued != nothing_queued() && !old(queue).view().is_exec),
        final(queue).view() == (RunQueueState {
            ref_count: (old(queue).view().ref_count - 1) as usize,
            is_exec: old(queue).view().is_exec || guard is Some,
            ..old(queue).view()
        }),
        (final(queue).view(), guard is Some) == released(old(queue).view()),
{
    queue.ref_count = queue.ref_count - 1;
    if queue.ref_count == 0 && !queue_is_empty(&queue.queue) && !queue.is_exec {
        queue.is_exec = true;
        Some(ExecGuard { _private: () })
    } else {
        None
    }
}

/// Ends the execution started by `dec_ref` handing out `guard`.
pub fn end_exec(queue: &mut RunQueue, guard: ExecGuard)
    requires
        old(queue).wf(),
    ensures
        final(queue).wf(),
        final(queue).view() == (RunQueueState { is_exec: false, ..old(queue).view() }),
{
    queue.is_exec = false;
}

/// Pushes a subscriber to the queue.
///
/// An effect already queued moves to the back of the queue and keeps the
/// info it was first queued with.
pub fn push(queue: &mut RunQueue, sub: u64, info: Vec<EffectDepInfo>)
    requires
        old(queue).wf(),
        old(queue).view().next < usize::MAX,
    ensures
        final(queue).wf(),
        final(queue).view() == queue_push(old(queue).view(), sub, info@),
{
    let ghost old_infos = queue.infos@;
    let next = queue.next;
    let res = queue_push_decrease(&mut queue.queue, sub, next);
    if res.is_none() {
        queue.infos.insert(sub, info);
    }
    queue.next = next + 1;
    proof {
        let q = queued_items(queue.queue);
        assert(q.dom() =~= queue.infos@.dom());
        assert(queue.view().infos =~= queue_push(old(queue).view(), sub, info@).infos);
    }
}

/// Pops the subscriber at the front of the queue
pub fn pop(queue: &mut RunQueue) -> (res: Option<(u64, Vec<EffectDepInfo>)>)
    requires
        old(queue).wf(),
    ensures
        final(queue).wf(),
        res is None <==> old(queue).view().queued == nothing_queued(),
        res is None ==> final(queue).view() == old(queue).view(),
        res matches Some((sub, info)) ==> {
            &&& is_first(old(queue).view().queued, sub)
            &&& info@ == old(queue).view().infos[sub]
            &&& final(queue).view() == (RunQueueState {
                queued: old(queue).view().queued.remove(sub),
                infos: old(queue).view().infos.remove(sub),
                ..old(queue).view()
            })
        },
{
    match queue_pop(&mut queue.queue) {
        None => None,
        Some(entry) => {
            let sub = entry.item;
            let info = match queue.infos.remove(&sub) {
                Some(info) => info,
                None => {
                    assert(false);
                    Vec::new()
                },
            };
            proof {
                assert(queued_items(queue.queue).dom() =~= queue.infos@.dom());
                assert(queue.view().infos =~= old(queue).view().infos.remove(sub));
            }
            Some((sub, info))
        },
    }
}

} // verus!
