//! World
//!
//! The state behind the reactivity primitives: which effects exist and
//! their flags, the tags in force, the stack of running effects, the
//! dependency graph and the run queue. Effects and triggers are known by id;
//! running an effect's function is left to the caller, which asks the world
//! what to do at each step.

use vstd::prelude::*;
use std::collections::HashMap;
use crate::loc::Loc;
use crate::tags::{WorldTag, WorldTagState, WorldTagGuard, WorldTagsData, state_enabled};
use crate::holey_stack::take_at;
use crate::effect_stack::{EffectStack, top_effect};
use crate::run_queue::{self, RunQueue, RunQueueState, ExecGuard, queue_push, is_first, released};
use crate::dep_graph::{
    DepGraph, Link, Node, Edge, Dir, EffectDepInfo, EffectSubInfo, far_ends, weights_between, as_deps,
    links_without, no_reverse_links, lemma_far_ends_len, link_well_kinded,
};

verus! {

broadcast use vstd::std_specs::hash::group_hash_axioms;

/// Flags of an effect.
#[derive(PartialEq, Eq, Clone, Copy, Debug, Structural)]
pub struct EffectFlags {
    /// Whether the effect ran since it was last made stale.
    pub fresh: bool,
    /// Whether the effect is kept out of the run queue.
    pub suppressed: bool,
    /// Whether the effect is checking its dependencies.
    pub checking_deps: bool,
}

/// Flags of a newly created effect.
pub open spec fn new_flags() -> EffectFlags {
    EffectFlags { fresh: false, suppressed: false, checking_deps: false }
}

/// `effects` with the fresh flag of `id` (if it exists) set to `fresh`.
pub open spec fn with_fresh(effects: Map<u64, EffectFlags>, id: u64, fresh: bool) -> Map<u64, EffectFlags> {
    if effects.contains_key(id) {
        effects.insert(id, EffectFlags { fresh, ..effects[id] })
    } else {
        effects
    }
}

/// `effects` with the suppressed flag of `id` (if it exists) set to `suppressed`.
pub open spec fn with_suppressed(effects: Map<u64, EffectFlags>, id: u64, suppressed: bool) -> Map<u64, EffectFlags> {
    if effects.contains_key(id) {
        effects.insert(id, EffectFlags { suppressed, ..effects[id] })
    } else {
        effects
    }
}

/// `effects` with the dependency-checking flag of `id` (if it exists) set to `checking`.
pub open spec fn with_checking(effects: Map<u64, EffectFlags>, id: u64, checking: bool) -> Map<u64, EffectFlags> {
    if effects.contains_key(id) {
        effects.insert(id, EffectFlags { checking_deps: checking, ..effects[id] })
    } else {
        effects
    }
}

/// Whether effect `id` must run once its dependencies are checked: it
/// exists, and is neither suppressed nor fresh.
pub open spec fn would_run(effects: Map<u64, EffectFlags>, id: u64) -> bool {
    effects.contains_key(id) && !effects[id].suppressed && !effects[id].fresh
}

/// Whether an effect is suppressed (a missing effect is not).
pub open spec fn is_suppressed_in(effects: Map<u64, EffectFlags>, id: u64) -> bool {
    effects.contains_key(id) && effects[id].suppressed
}

/// Whether an execution queues effect `id`: it exists and is not suppressed.
pub open spec fn runnable(effects: Map<u64, EffectFlags>, id: u64) -> bool {
    effects.contains_key(id) && !effects[id].suppressed
}

/// Id of the effect or trigger that `n` is.
pub open spec fn node_id(n: Node) -> u64 {
    match n {
        Node::Trigger(t) => t,
        Node::Effect(e) => e,
    }
}

/// Dependency infos of dependency edges.
pub open spec fn dep_infos(ws: Seq<Edge>) -> Seq<EffectDepInfo> {
    ws.map_values(|w: Edge| match w {
        Edge::EffectDep(i) => i,
        Edge::EffectSub(s) => EffectDepInfo { gathered_loc: s.exec_loc },
    })
}

/// The run queue after an execution of `trigger` has queued its first `k`
/// subscribers (in `links`), skipping those that are gone or suppressed.
pub open spec fn enqueue_subs(q: RunQueueState, effects: Map<u64, EffectFlags>, links: Seq<Link>, trigger: u64, k: int) -> RunQueueState
    decreases k,
{
    if k <= 0 {
        q
    } else {
        let prev = enqueue_subs(q, effects, links, trigger, k - 1);
        let n = far_ends(links, Node::Trigger(trigger), Dir::Outgoing)[k - 1];
        if runnable(effects, node_id(n)) {
            queue_push(prev, node_id(n), dep_infos(weights_between(links, Node::Trigger(trigger), n)))
        } else {
            prev
        }
    }
}

/// How many of the first `k` subscribers in `ends` are queued.
pub open spec fn k_pushed(effects: Map<u64, EffectFlags>, ends: Seq<Node>, k: int) -> int
    decreases k,
{
    if k <= 0 {
        0
    } else if runnable(effects, node_id(ends[k - 1])) {
        k_pushed(effects, ends, k - 1) + 1
    } else {
        k_pushed(effects, ends, k - 1)
    }
}

pub proof fn lemma_dep_infos_as_deps(infos: Seq<EffectDepInfo>)
    ensures
        dep_infos(as_deps(infos)) == infos,
{
    assert(dep_infos(as_deps(infos)) =~= infos);
}

/// The effects after the ones in `ends` that are not suppressed are made stale.
pub open spec fn mark_stale(effects: Map<u64, EffectFlags>, ends: Seq<Node>) -> Map<u64, EffectFlags> {
    effects.map_entries(|id: u64, f: EffectFlags| if ends.contains(Node::Effect(id)) && !f.suppressed {
        EffectFlags { fresh: false, ..f }
    } else {
        f
    })
}

/// Outcome of gathering a trigger as a dependency.
#[derive(PartialEq, Eq, Clone, Copy, Debug, Structural)]
pub enum GatherOutcome {
    /// The "no-dep" tag is in force: nothing was gathered.
    NoDep,
    /// The trigger was added as a dependency of the running effect.
    Gathered,
    /// No effect is running: nothing was gathered. Accessing a signal outside
    /// of an effect usually means the code won't re-run when it changes.
    NoEffect,
}

/// Trigger executor.
///
/// Hand it back to [`World::release_exec`] once the execution ends.
pub struct TriggerExec {
    /// Executed trigger
    pub trigger: u64,
    /// Execution location
    pub exec_loc: Loc,
}

/// What to do next while draining the run queue.
pub enum DrainStep {
    /// Run this effect, queued with these infos.
    Run(u64, Vec<EffectDepInfo>),
    /// The queued effect no longer exists: go on.
    Skip(u64),
    /// The queue is empty.
    Done,
}

/// The ends of the items of a walk.
fn ends_of<I>(items: Vec<crate::dep_graph::WithItem<I>>) -> (res: Vec<u64>)
    ensures
        res@.len() == items@.len(),
        forall|i: int| 0 <= i < res@.len() ==> #[trigger] res@[i] == items@[i].end,
{
    let mut res: Vec<u64> = Vec::new();
    let n = items.len();
    let mut k: usize = 0;
    while k < n
        invariant
            n == items@.len(),
            k <= n,
            res@.len() == k,
            forall|i: int| 0 <= i < k ==> #[trigger] res@[i] == items@[i].end,
        decreases n - k,
    {
        res.push(items[k].end);
        k = k + 1;
    }
    res
}

/// World
pub struct World {
    tags: WorldTagsData,
    effect_stack: EffectStack,
    run_queue: RunQueue,
    dep_graph: DepGraph,
    effects: HashMap<u64, EffectFlags>,
    next_effect: u64,
    next_trigger: u64,
}

impl World {
    pub closed spec fn tags(&self) -> WorldTagsData {
        self.tags
    }

    /// Running effects, innermost last.
    pub closed spec fn stack(&self) -> Seq<u64> {
        self.effect_stack@
    }

    pub closed spec fn queue(&self) -> RunQueueState {
        self.run_queue.view()
    }

    pub closed spec fn links(&self) -> Seq<Link> {
        self.dep_graph.links()
    }

    /// Existing effects and their flags.
    pub closed spec fn effects(&self) -> Map<u64, EffectFlags> {
        self.effects@
    }

    pub closed spec fn next_effect(&self) -> u64 {
        self.next_effect
    }

    pub closed spec fn next_trigger(&self) -> u64 {
        self.next_trigger
    }

    pub closed spec fn node_count(&self) -> nat {
        self.dep_graph.node_count()
    }

    pub closed spec fn edge_count(&self) -> nat {
        self.dep_graph.edge_count()
    }

    pub closed spec fn wf(&self) -> bool {
        &&& self.tags.wf()
        &&& self.run_queue.wf()
        &&& self.dep_graph.wf()
        &&& forall|id: u64| #[trigger] self.effects@.contains_key(id) ==> id < self.next_effect
    }

    /// The dependency graph's graphviz text, with nodes labelled by where
    /// the triggers and effects in the given locations were defined.
    pub closed spec fn dot(&self, trigger_locs: Map<u64, Loc>, effect_locs: Map<u64, Loc>) -> Seq<char> {
        self.dep_graph.dot(trigger_locs, effect_locs)
    }

    /// Exports the dependency graph as a dot graph, labelling each node with
    /// where it was defined (`trigger_locs` and `effect_locs` hold the
    /// triggers and effects that still exist; the others are shown as
    /// dropped) and each edge with where it was gathered or executed.
    pub fn export_dot(&self, trigger_locs: &HashMap<u64, Loc>, effect_locs: &HashMap<u64, Loc>) -> (res: String)
        ensures
            res@ == self.dot(trigger_locs@, effect_locs@),
    {
        self.dep_graph.export_dot(trigger_locs, effect_locs)
    }

    /// In a well-formed world, every queued effect's sequence number is below
    /// the next one, no two queued effects share one, and finitely many
    /// effects are queued.
    pub proof fn lemma_queued_below_next(&self)
        requires
            self.wf(),
        ensures
            forall|i: u64| #[trigger] self.queue().queued.contains_key(i) ==> self.queue().queued[i] < self.queue().next,
            forall|i: u64, j: u64| #[trigger] self.queue().queued.contains_key(i) && #[trigger] self.queue().queued.contains_key(j)
                && i != j ==> self.queue().queued[i] != self.queue().queued[j],
            self.queue().queued.dom().finite(),
    {
        self.run_queue.lemma_queued_below_next();
    }

    /// The tags of a well-formed world are well-formed.
    pub proof fn lemma_tags_wf(&self)
        requires
            self.wf(),
        ensures
            self.tags().wf(),
    {
    }

    /// Every link of a well-formed world goes between an effect and a trigger.
    pub proof fn lemma_links_well_kinded(&self)
        requires
            self.wf(),
        ensures
            forall|k: int| 0 <= k < self.links().len() ==> link_well_kinded(#[trigger] self.links()[k]),
    {
        self.dep_graph.lemma_links_well_kinded();
    }

    /// There is one link per edge of the dependency graph.
    pub proof fn lemma_links_len(&self)
        requires
            self.wf(),
        ensures
            self.links().len() == self.edge_count(),
    {
        self.dep_graph.lemma_links_len();
    }

    /// Room left for one more execution or gathering.
    pub open spec fn has_room(&self) -> bool {
        &&& self.node_count() + 2 < u32::MAX
        &&& self.edge_count() + 1 < u32::MAX
        &&& self.queue().ref_count < usize::MAX
        &&& self.queue().next + self.edge_count() + 1 < usize::MAX
    }

    /// Whether there is room left for one more execution or gathering.
    pub fn room_left(&self) -> (res: bool)
        ensures
            res == self.has_room(),
    {
        let nodes = self.dep_graph.nodes_len();
        let edges = self.dep_graph.edges_len();
        nodes < 4294967293usize && edges < 4294967294usize && self.run_queue.ref_count() < usize::MAX
            && edges < usize::MAX - 1 && self.run_queue.next() < usize::MAX - 1 - edges
    }

    /// Creates a new world
    pub fn new() -> (res: Self)
        ensures
            res.wf(),
            res.effects() == Map::<u64, EffectFlags>::empty(),
            res.stack() == Seq::<u64>::empty(),
            res.links() == Seq::<Link>::empty(),
            res.queue().queued == Map::<u64, usize>::empty(),
            res.queue().ref_count == 0,
            !res.queue().is_exec,
            res.next_effect() == 0,
            res.next_trigger() == 0,
            res.node_count() == 0,
            res.edge_count() == 0,
            res.queue().next == 0,
            res.queue().infos == Map::<u64, Seq<EffectDepInfo>>::empty(),
            forall|t: WorldTag| #[trigger] res.tags().state(t) is None,
    {
        let res = World {
            tags: WorldTagsData::new(),
            effect_stack: EffectStack::new(),
            run_queue: RunQueue::new(),
            dep_graph: DepGraph::new(),
            effects: HashMap::new(),
            next_effect: 0,
            next_trigger: 0,
        };
        assert(res.effects@ =~= Map::<u64, EffectFlags>::empty());
        res
    }

    /// Number of executions not released yet.
    pub fn exec_count(&self) -> (res: usize)
        ensures
            res == self.queue().ref_count,
    {
        self.run_queue.ref_count()
    }

    /// Whether an effect id is left to give out.
    pub fn effect_ids_left(&self) -> (res: bool)
        ensures
            res == (self.next_effect() < u64::MAX),
    {
        self.next_effect < u64::MAX
    }

    /// Whether a trigger id is left to give out.
    pub fn trigger_ids_left(&self) -> (res: bool)
        ensures
            res == (self.next_trigger() < u64::MAX),
    {
        self.next_trigger < u64::MAX
    }

    /// Creates an effect, returning its id. The effect starts stale, not
    /// suppressed and not checking dependencies.
    pub fn create_effect(&mut self) -> (id: u64)
        requires
            old(self).wf(),
            old(self).next_effect() < u64::MAX,
        ensures
            final(self).wf(),
            id == old(self).next_effect(),
            !old(self).effects().contains_key(id),
            final(self).effects() == old(self).effects().insert(id, new_flags()),
            final(self).next_effect() == old(self).next_effect() + 1,
            final(self).tags() == old(self).tags(),
            final(self).stack() == old(self).stack(),
            final(self).queue() == old(self).queue(),
            final(self).links() == old(self).links(),
            final(self).next_trigger() == old(self).next_trigger(),
            final(self).node_count() == old(self).node_count(),
            final(self).edge_count() == old(self).edge_count(),
    {
        let id = self.next_effect;
        self.effects.insert(id, EffectFlags { fresh: false, suppressed: false, checking_deps: false });
        self.next_effect = id + 1;
        id
    }

    /// Drops an effect: it no longer exists, so it is never run again.
    pub fn drop_effect(&mut self, id: u64)
        requires
            old(self).wf(),
        ensures
            final(self).wf(),
            final(self).effects() == old(self).effects().remove(id),
            final(self).next_effect() == old(self).next_effect(),
            final(self).tags() == old(self).tags(),
            final(self).stack() == old(self).stack(),
            final(self).queue() == old(self).queue(),
            final(self).links() == old(self).links(),
            final(self).next_trigger() == old(self).next_trigger(),
            final(self).node_count() == old(self).node_count(),
            final(self).edge_count() == old(self).edge_count(),
    {
        self.effects.remove(&id);
    }

    /// Creates a trigger, returning its id.
    pub fn create_trigger(&mut self) -> (id: u64)
        requires
            old(self).wf(),
            old(self).next_trigger() < u64::MAX,
        ensures
            id == old(self).next_trigger(),
            final(self).next_trigger() == old(self).next_trigger() + 1,
            final(self).wf(),
            final(self).effects() == old(self).effects(),
            final(self).next_effect() == old(self).next_effect(),
            final(self).tags() == old(self).tags(),
            final(self).stack() == old(self).stack(),
            final(self).queue() == old(self).queue(),
            final(self).links() == old(self).links(),
            final(self).node_count() == old(self).node_count(),
            final(self).edge_count() == old(self).edge_count(),
    {
        let id = self.next_trigger;
        self.next_trigger = id + 1;
        id
    }

    /// Flags of an effect, if it exists.
    pub fn effect_flags(&self, id: u64) -> (res: Option<EffectFlags>)
        ensures
            res == (if self.effects().contains_key(id) { Some(self.effects()[id]) } else { None }),
    {
        match self.effects.get(&id) {
            Some(f) => Some(*f),
            None => None,
        }
    }

    /// Whether an effect still exists.
    pub fn is_alive(&self, id: u64) -> (res: bool)
        ensures
            res == self.effects().contains_key(id),
    {
        self.effects.contains_key(&id)
    }

    /// Returns whether the effect is fresh
    pub fn is_fresh(&self, id: u64) -> (res: bool)
        ensures
            res == (self.effects().contains_key(id) && self.effects()[id].fresh),
    {
        match self.effects.get(&id) {
            Some(f) => f.fresh,
            None => false,
        }
    }

    /// Returns whether the effect is stale
    pub fn is_stale(&self, id: u64) -> (res: bool)
        ensures
            res == !(self.effects().contains_key(id) && self.effects()[id].fresh),
    {
        !self.is_fresh(id)
    }

    /// Returns whether the effect is suppressed
    pub fn is_suppressed(&self, id: u64) -> (res: bool)
        ensures
            res == (self.effects().contains_key(id) && self.effects()[id].suppressed),
    {
        match self.effects.get(&id) {
            Some(f) => f.suppressed,
            None => false,
        }
    }

    /// Replaces the flags of an existing effect.
    fn set_flags(&mut self, id: u64, flags: EffectFlags)
        requires
            old(self).wf(),
            old(self).effects().contains_key(id),
        ensures
            final(self).wf(),
            final(self).effects() == old(self).effects().insert(id, flags),
            final(self).next_effect() == old(self).next_effect(),
            final(self).tags() == old(self).tags(),
            final(self).stack() == old(self).stack(),
            final(self).queue() == old(self).queue(),
            final(self).links() == old(self).links(),
            final(self).node_count() == old(self).node_count(),
            final(self).edge_count() == old(self).edge_count(),
            final(self).next_trigger() == old(self).next_trigger(),
    {
        self.effects.insert(id, flags);
    }

    /// Sets the effect as stale
    pub fn set_stale(&mut self, id: u64)
        requires
            old(self).wf(),
        ensures
            final(self).wf(),
            final(self).effects() == with_fresh(old(self).effects(), id, false),
            final(self).next_effect() == old(self).next_effect(),
            final(self).tags() == old(self).tags(),
            final(self).stack() == old(self).stack(),
            final(self).queue() == old(self).queue(),
            final(self).links() == old(self).links(),
            final(self).next_trigger() == old(self).next_trigger(),
            final(self).node_count() == old(self).node_count(),
            final(self).edge_count() == old(self).edge_count(),
    {
        if let Some(f) = self.effect_flags(id) {
            self.set_flags(id, EffectFlags { fresh: false, ..f });
        }
    }

    /// Suppresses an effect, keeping it out of the run queue.
    ///
    /// Returns whether it was suppressed before, to restore afterwards with
    /// [`Self::restore_suppressed`].
    pub fn suppress(&mut self, id: u64) -> (prev: bool)
        requires
            old(self).wf(),
        ensures
            final(self).wf(),
            prev == is_suppressed_in(old(self).effects(), id),
            final(self).effects() == with_suppressed(old(self).effects(), id, true),
            final(self).next_effect() == old(self).next_effect(),
            final(self).tags() == old(self).tags(),
            final(self).stack() == old(self).stack(),
            final(self).queue() == old(self).queue(),
            final(self).links() == old(self).links(),
            final(self).next_trigger() == old(self).next_trigger(),
            final(self).node_count() == old(self).node_count(),
            final(self).edge_count() == old(self).edge_count(),
    {
        match self.effect_flags(id) {
            Some(f) => {
                self.set_flags(id, EffectFlags { suppressed: true, ..f });
                f.suppressed
            },
            None => false,
        }
    }

    /// Sets whether an effect is suppressed back to `prev`.
    pub fn restore_suppressed(&mut self, id: u64, prev: bool)
        requires
            old(self).wf(),
        ensures
            final(self).wf(),
            final(self).effects() == with_suppressed(old(self).effects(), id, prev),
            final(self).next_effect() == old(self).next_effect(),
            final(self).tags() == old(self).tags(),
            final(self).stack() == old(self).stack(),
            final(self).queue() == old(self).queue(),
            final(self).links() == old(self).links(),
            final(self).next_trigger() == old(self).next_trigger(),
            final(self).node_count() == old(self).node_count(),
            final(self).edge_count() == old(self).edge_count(),
    {
        if let Some(f) = self.effect_flags(id) {
            self.set_flags(id, EffectFlags { suppressed: prev, ..f });
        }
    }

    /// Returns the current running effect
    pub fn running(&self) -> (res: Option<u64>)
        ensures
            res == top_effect(self.stack()),
    {
        self.effect_stack.top()
    }

    /// Returns if a tag is present and enabled
    pub fn has_tag(&self, tag: WorldTag) -> (res: bool)
        requires
            self.wf(),
        ensures
            res == state_enabled(self.tags().state(tag)),
    {
        self.tags.has_tag(tag)
    }

    /// Whether another state of `tag` can be entered.
    pub fn tag_room(&self, tag: WorldTag) -> (res: bool)
        ensures
            res == (self.tags().stack(tag).len() < usize::MAX),
    {
        self.tags.stack_len(tag) < usize::MAX
    }

    /// Adds a tag to the world until the guard is released.
    pub fn add_tag(&mut self, tag: WorldTag) -> (guard: WorldTagGuard)
        requires
            old(self).wf(),
            old(self).tags().stack(tag).len() < usize::MAX,
        ensures
            final(self).wf(),
            guard.tag() == tag,
            guard.idx() == old(self).tags().stack(tag).len(),
            final(self).tags().stack(tag) == old(self).tags().stack(tag).push(Some(WorldTagState::Enabled)),
            forall|t: WorldTag| t != tag ==> #[trigger] final(self).tags().stack(t) == old(self).tags().stack(t),
            final(self).effects() == old(self).effects(),
            final(self).next_effect() == old(self).next_effect(),
            final(self).stack() == old(self).stack(),
            final(self).queue() == old(self).queue(),
            final(self).links() == old(self).links(),
            final(self).next_trigger() == old(self).next_trigger(),
            final(self).node_count() == old(self).node_count(),
            final(self).edge_count() == old(self).edge_count(),
    {
        self.tags.add_tag(tag)
    }

    /// Removes a tag from the world until the guard is released.
    pub fn remove_tag(&mut self, tag: WorldTag) -> (guard: WorldTagGuard)
        requires
            old(self).wf(),
            old(self).tags().stack(tag).len() < usize::MAX,
        ensures
            final(self).wf(),
            guard.tag() == tag,
            guard.idx() == old(self).tags().stack(tag).len(),
            final(self).tags().stack(tag) == old(self).tags().stack(tag).push(Some(WorldTagState::Disabled)),
            forall|t: WorldTag| t != tag ==> #[trigger] final(self).tags().stack(t) == old(self).tags().stack(t),
            final(self).effects() == old(self).effects(),
            final(self).next_effect() == old(self).next_effect(),
            final(self).stack() == old(self).stack(),
            final(self).queue() == old(self).queue(),
            final(self).links() == old(self).links(),
            final(self).next_trigger() == old(self).next_trigger(),
            final(self).node_count() == old(self).node_count(),
            final(self).edge_count() == old(self).edge_count(),
    {
        self.tags.remove_tag(tag)
    }

    /// Leaves the tag state entered with `guard`.
    pub fn release_tag(&mut self, guard: WorldTagGuard)
        requires
            old(self).wf(),
        ensures
            final(self).wf(),
            final(self).tags().stack(guard.tag()) == take_at(old(self).tags().stack(guard.tag()), guard.idx() as int).1,
            forall|t: WorldTag| t != guard.tag() ==> #[trigger] final(self).tags().stack(t) == old(self).tags().stack(t),
            final(self).effects() == old(self).effects(),
            final(self).next_effect() == old(self).next_effect(),
            final(self).stack() == old(self).stack(),
            final(self).queue() == old(self).queue(),
            final(self).links() == old(self).links(),
            final(self).next_trigger() == old(self).next_trigger(),
            final(self).node_count() == old(self).node_count(),
            final(self).edge_count() == old(self).edge_count(),
    {
        self.tags.release(guard)
    }

    /// Gathers `trigger` as a dependency of the running effect, gathered at `loc`.
    ///
    /// Nothing is gathered while the "no-dep" tag is in force or when no
    /// effect is running.
    pub fn gather_subs(&mut self, trigger: u64, loc: Loc) -> (res: GatherOutcome)
        requires
            old(self).wf(),
            old(self).has_room(),
        ensures
            final(self).wf(),
            res == (if state_enabled(old(self).tags().state(WorldTag::NoDep)) {
                GatherOutcome::NoDep
            } else if top_effect(old(self).stack()) is Some {
                GatherOutcome::Gathered
            } else {
                GatherOutcome::NoEffect
            }),
            final(self).links() == (if res == GatherOutcome::Gathered {
                old(self).links().push(Link {
                    source: Node::Trigger(trigger),
                    target: Node::Effect(top_effect(old(self).stack()).unwrap()),
                    weight: Edge::EffectDep(EffectDepInfo { gathered_loc: loc }),
                })
            } else {
                old(self).links()
            }),
            final(self).effects() == old(self).effects(),
            final(self).next_effect() == old(self).next_effect(),
            final(self).tags() == old(self).tags(),
            final(self).stack() == old(self).stack(),
            final(self).queue() == old(self).queue(),
            final(self).next_trigger() == old(self).next_trigger(),
            final(self).node_count() <= old(self).node_count() + 2,
            final(self).edge_count() == old(self).edge_count() + (if res == GatherOutcome::Gathered { 1int } else { 0int }),
    {
        if self.tags.has_tag(WorldTag::NoDep) {
            return GatherOutcome::NoDep;
        }
        match self.effect_stack.top() {
            Some(effect) => {
                self.dep_graph.add_effect_dep(effect, trigger, loc);
                GatherOutcome::Gathered
            },
            None => GatherOutcome::NoEffect,
        }
    }

    /// Executes `trigger`, at `exec_loc`.
    ///
    /// Unless the "no-run" tag is in force: registers the running effect (if
    /// any) as a subscriber of the trigger, takes a reference on the run
    /// queue, and queues every existing, unsuppressed effect that gathered
    /// the trigger, making it stale. The run queue is drained once the last
    /// execution is released.
    pub fn exec_trigger(&mut self, trigger: u64, exec_loc: Loc) -> (res: Option<TriggerExec>)
        requires
            old(self).wf(),
            old(self).has_room(),
        ensures
            final(self).wf(),
            final(self).tags() == old(self).tags(),
            final(self).stack() == old(self).stack(),
            final(self).next_effect() == old(self).next_effect(),
            state_enabled(old(self).tags().state(WorldTag::NoRun)) ==> {
                &&& res is None
                &&& final(self).links() == old(self).links()
                &&& final(self).queue() == old(self).queue()
                &&& final(self).effects() == old(self).effects()
            },
            !state_enabled(old(self).tags().state(WorldTag::NoRun)) ==> {
                let links = final(self).links();
                let subs = far_ends(links, Node::Trigger(trigger), Dir::Outgoing);
                &&& res matches Some(exec) && exec.trigger == trigger && exec.exec_loc == exec_loc
                &&& links == (if top_effect(old(self).stack()) is Some {
                    old(self).links().push(Link {
                        source: Node::Effect(top_effect(old(self).stack()).unwrap()),
                        target: Node::Trigger(trigger),
                        weight: Edge::EffectSub(EffectSubInfo { exec_loc }),
                    })
                } else {
                    old(self).links()
                })
                &&& final(self).queue() == enqueue_subs(
                    RunQueueState { ref_count: (old(self).queue().ref_count + 1) as usize, ..old(self).queue() },
                    old(self).effects(), links, trigger, subs.len() as int)
                &&& final(self).effects() == mark_stale(old(self).effects(), subs)
            },
            final(self).next_trigger() == old(self).next_trigger(),
            final(self).node_count() <= old(self).node_count() + 2,
            final(self).edge_count() == old(self).edge_count()
                + (if !state_enabled(old(self).tags().state(WorldTag::NoRun)) && top_effect(old(self).stack()) is Some { 1int } else { 0int }),
            !state_enabled(old(self).tags().state(WorldTag::NoRun)) ==> {
                &&& final(self).queue().ref_count == old(self).queue().ref_count + 1
                &&& final(self).queue().is_exec == old(self).queue().is_exec
                &&& old(self).queue().next <= final(self).queue().next <= old(self).queue().next + final(self).edge_count()
            },
    {
        if self.tags.has_tag(WorldTag::NoRun) {
            return None;
        }
        if let Some(effect) = self.effect_stack.top() {
            self.dep_graph.add_effect_sub(effect, trigger, exec_loc);
        }
        run_queue::inc_ref(&mut self.run_queue);
        proof {
            self.dep_graph.lemma_links_len();
        }
        let ghost links = self.dep_graph.links();
        let ghost q1 = self.run_queue.view();
        let ghost eff0 = self.effects@;
        let ghost fe = far_ends(links, Node::Trigger(trigger), Dir::Outgoing);
        let ghost dg = self.dep_graph;
        proof {
            lemma_far_ends_len(links, Node::Trigger(trigger), Dir::Outgoing);
            assert(mark_stale(eff0, fe.subrange(0, 0)) =~= eff0);
        }
        let mut subs = self.dep_graph.with_trigger_subs(trigger);
        let n = subs.len();
        let mut k: usize = 0;
        while k < n
            invariant
                self.wf(),
                n == fe.len(),
                k <= n,
                n <= links.len(),
                subs@.len() == n - k,
                links == self.dep_graph.links(),
                fe == far_ends(links, Node::Trigger(trigger), Dir::Outgoing),
                q1.next + links.len() < usize::MAX,
                self.run_queue.view() == enqueue_subs(q1, eff0, links, trigger, k as int),
                self.run_queue.view().next == q1.next + k_pushed(eff0, fe, k as int),
                0 <= k_pushed(eff0, fe, k as int) <= k,
                self.effects@ == mark_stale(eff0, fe.subrange(0, k as int)),
                forall|i: int| 0 <= i < subs@.len() ==> Node::Effect((#[trigger] subs@[i]).end) == fe[k + i]
                    && as_deps(subs@[i].infos@) == weights_between(links, Node::Trigger(trigger), fe[k + i]),
                self.tags == old(self).tags,
                self.effect_stack == old(self).effect_stack,
                self.next_effect == old(self).next_effect,
                self.next_trigger == old(self).next_trigger,
                self.dep_graph == dg,
                self.run_queue.view().ref_count == q1.ref_count,
                self.run_queue.view().is_exec == q1.is_exec,
            decreases n - k,
        {
            let item = subs.remove(0);
            let id = item.end;
            proof {
                assert(Node::Effect(id) == fe[k as int]);
                lemma_dep_infos_as_deps(item.infos@);
            }
            match self.effects.get(&id) {
                Some(f) => {
                    if !f.suppressed {
                        let flags = EffectFlags { fresh: false, ..*f };
                        self.effects.insert(id, flags);
                        run_queue::push(&mut self.run_queue, id, item.infos);
                    }
                },
                None => {},
            }
            proof {
                let pre = fe.subrange(0, k as int);
                let post = fe.subrange(0, k + 1);
                assert(post =~= pre.push(fe[k as int]));
                assert forall|x: u64| #[trigger] mark_stale(eff0, post).contains_key(x) ==
                    self.effects@.contains_key(x) by {}
                assert(self.effects@ =~= mark_stale(eff0, post)) by {
                    assert forall|x: u64| self.effects@.contains_key(x) implies #[trigger] self.effects@[x] == mark_stale(eff0, post)[x] by {
                        if x != id {
                            assert(post.contains(Node::Effect(x)) == pre.contains(Node::Effect(x)));
                        } else {
                            assert(post[k as int] == Node::Effect(x));
                            assert(post.contains(Node::Effect(x)));
                        }
                    }
                }
                assert forall|i: int| 0 <= i < subs@.len() implies Node::Effect((#[trigger] subs@[i]).end) == fe[k + 1 + i]
                    && as_deps(subs@[i].infos@) == weights_between(links, Node::Trigger(trigger), fe[k + 1 + i]) by {
                }
            }
            k = k + 1;
        }
        proof {
            assert(fe.subrange(0, n as int) =~= fe);
        }
        Some(TriggerExec { trigger, exec_loc })
    }

    /// Releases an execution.
    ///
    /// Returns the guard for draining the run queue if this was the last
    /// execution released, something is queued and nobody drains it already.
    pub fn release_exec(&mut self, exec: TriggerExec) -> (guard: Option<ExecGuard>)
        requires
            old(self).wf(),
            old(self).queue().ref_count > 0,
        ensures
            final(self).wf(),
            guard is Some <==> (old(self).queue().ref_count == 1
                && old(self).queue().queued != Map::<u64, usize>::empty() && !old(self).queue().is_exec),
            final(self).queue() == (RunQueueState {
                ref_count: (old(self).queue().ref_count - 1) as usize,
                is_exec: old(self).queue().is_exec || guard is Some,
                ..old(self).queue()
            }),
            (final(self).queue(), guard is Some) == released(old(self).queue()),
            final(self).effects() == old(self).effects(),
            final(self).next_effect() == old(self).next_effect(),
            final(self).tags() == old(self).tags(),
            final(self).stack() == old(self).stack(),
            final(self).links() == old(self).links(),
            final(self).next_trigger() == old(self).next_trigger(),
            final(self).node_count() == old(self).node_count(),
            final(self).edge_count() == old(self).edge_count(),
    {
        run_queue::dec_ref(&mut self.run_queue)
    }

    /// Takes the next effect out of the run queue.
    pub fn drain_step(&mut self) -> (step: DrainStep)
        requires
            old(self).wf(),
        ensures
            final(self).wf(),
            step is Done <==> old(self).queue().queued == Map::<u64, usize>::empty(),
            step is Done ==> final(self).queue() == old(self).queue(),
            step matches DrainStep::Run(id, infos) ==> {
                &&& old(self).effects().contains_key(id)
                &&& is_first(old(self).queue().queued, id)
                &&& infos@ == old(self).queue().infos[id]
            },
            step matches DrainStep::Skip(id) ==> !old(self).effects().contains_key(id) && is_first(old(self).queue().queued, id),
            step matches DrainStep::Run(id, _) ==> final(self).queue() == (RunQueueState {
                queued: old(self).queue().queued.remove(id),
                infos: old(self).queue().infos.remove(id),
                ..old(self).queue()
            }),
            step matches DrainStep::Skip(id) ==> final(self).queue() == (RunQueueState {
                queued: old(self).queue().queued.remove(id),
                infos: old(self).queue().infos.remove(id),
                ..old(self).queue()
            }),
            final(self).effects() == old(self).effects(),
            final(self).next_effect() == old(self).next_effect(),
            final(self).tags() == old(self).tags(),
            final(self).stack() == old(self).stack(),
            final(self).links() == old(self).links(),
            final(self).next_trigger() == old(self).next_trigger(),
            final(self).node_count() == old(self).node_count(),
            final(self).edge_count() == old(self).edge_count(),
    {
        match run_queue::pop(&mut self.run_queue) {
            None => DrainStep::Done,
            Some((id, infos)) => {
                if self.effects.contains_key(&id) {
                    DrainStep::Run(id, infos)
                } else {
                    DrainStep::Skip(id)
                }
            },
        }
    }

    /// Ends the draining started by the execution that got `guard`.
    pub fn end_exec(&mut self, guard: ExecGuard)
        requires
            old(self).wf(),
        ensures
            final(self).wf(),
            final(self).queue() == (RunQueueState { is_exec: false, ..old(self).queue() }),
            final(self).effects() == old(self).effects(),
            final(self).next_effect() == old(self).next_effect(),
            final(self).tags() == old(self).tags(),
            final(self).stack() == old(self).stack(),
            final(self).links() == old(self).links(),
            final(self).next_trigger() == old(self).next_trigger(),
            final(self).node_count() == old(self).node_count(),
            final(self).edge_count() == old(self).edge_count(),
    {
        run_queue::end_exec(&mut self.run_queue, guard);
    }

    /// Starts running an effect: it checks its dependencies first.
    ///
    /// Returns `false`, changing nothing, when the effect does not exist or
    /// is already checking its dependencies (a cycle: it is being run
    /// already).
    pub fn begin_run(&mut self, id: u64) -> (go: bool)
        requires
            old(self).wf(),
        ensures
            final(self).wf(),
            go == (old(self).effects().contains_key(id) && !old(self).effects()[id].checking_deps),
            final(self).effects() == (if go { with_checking(old(self).effects(), id, true) } else { old(self).effects() }),
            final(self).next_effect() == old(self).next_effect(),
            final(self).tags() == old(self).tags(),
            final(self).stack() == old(self).stack(),
            final(self).queue() == old(self).queue(),
            final(self).links() == old(self).links(),
            final(self).next_trigger() == old(self).next_trigger(),
            final(self).node_count() == old(self).node_count(),
            final(self).edge_count() == old(self).edge_count(),
    {
        match self.effect_flags(id) {
            Some(f) => {
                if f.checking_deps {
                    false
                } else {
                    self.set_flags(id, EffectFlags { checking_deps: true, ..f });
                    true
                }
            },
            None => false,
        }
    }

    /// Whether the dependencies of `n` can be walked: no node reached
    /// against the edges' direction also has an edge coming from `n`.
    pub fn deps_walkable(&self, n: Node) -> (res: bool)
        requires
            self.wf(),
        ensures
            res == no_reverse_links(self.links(), n),
    {
        self.dep_graph.reverse_links_free(n)
    }

    /// The triggers an effect gathered, most recent first, once per gathering.
    pub fn effect_dependencies(&self, id: u64) -> (res: Vec<u64>)
        requires
            self.wf(),
            no_reverse_links(self.links(), Node::Effect(id)),
        ensures
            res@.len() == far_ends(self.links(), Node::Effect(id), Dir::Incoming).len(),
            forall|i: int| 0 <= i < res@.len() ==> Node::Trigger(#[trigger] res@[i])
                == far_ends(self.links(), Node::Effect(id), Dir::Incoming)[i],
    {
        let items = self.dep_graph.with_effect_deps(id);
        ends_of(items)
    }

    /// The effects that executed a trigger, most recent first, once per execution.
    pub fn trigger_dependencies(&self, trigger: u64) -> (res: Vec<u64>)
        requires
            self.wf(),
            no_reverse_links(self.links(), Node::Trigger(trigger)),
        ensures
            res@.len() == far_ends(self.links(), Node::Trigger(trigger), Dir::Incoming).len(),
            forall|i: int| 0 <= i < res@.len() ==> Node::Effect(#[trigger] res@[i])
                == far_ends(self.links(), Node::Trigger(trigger), Dir::Incoming)[i],
    {
        let items = self.dep_graph.with_trigger_deps(trigger);
        ends_of(items)
    }

    /// Ends the dependency check of an effect.
    ///
    /// Returns whether it must run now: it exists, and is neither suppressed
    /// nor fresh.
    pub fn end_check(&mut self, id: u64) -> (run: bool)
        requires
            old(self).wf(),
        ensures
            final(self).wf(),
            run == would_run(old(self).effects(), id),
            final(self).effects() == with_checking(old(self).effects(), id, false),
            final(self).next_effect() == old(self).next_effect(),
            final(self).tags() == old(self).tags(),
            final(self).stack() == old(self).stack(),
            final(self).queue() == old(self).queue(),
            final(self).links() == old(self).links(),
            final(self).next_trigger() == old(self).next_trigger(),
            final(self).node_count() == old(self).node_count(),
            final(self).edge_count() == old(self).edge_count(),
    {
        match self.effect_flags(id) {
            Some(f) => {
                self.set_flags(id, EffectFlags { checking_deps: false, ..f });
                !f.suppressed && !f.fresh
            },
            None => false,
        }
    }

    /// Starts running an effect's function: its dependencies and subscribers
    /// are cleared, it becomes the running effect, and the "no-dep" tag is
    /// lifted until the returned guard is handed to [`Self::end_force_run`],
    /// so that the effect gathers its dependencies even when it runs inside
    /// a frame that gathers none.
    pub fn begin_force_run(&mut self, id: u64) -> (guard: WorldTagGuard)
        requires
            old(self).wf(),
            old(self).tags().stack(WorldTag::NoDep).len() < usize::MAX,
        ensures
            final(self).wf(),
            final(self).links() == links_without(old(self).links(), Node::Effect(id)),
            final(self).stack() == old(self).stack().push(id),
            guard.tag() == WorldTag::NoDep,
            guard.idx() == old(self).tags().stack(WorldTag::NoDep).len(),
            final(self).tags().stack(WorldTag::NoDep) == old(self).tags().stack(WorldTag::NoDep).push(Some(WorldTagState::Disabled)),
            forall|t: WorldTag| t != WorldTag::NoDep ==> #[trigger] final(self).tags().stack(t) == old(self).tags().stack(t),
            final(self).effects() == old(self).effects(),
            final(self).next_effect() == old(self).next_effect(),
            final(self).next_trigger() == old(self).next_trigger(),
            final(self).queue() == old(self).queue(),
            final(self).node_count() == old(self).node_count(),
            final(self).edge_count() <= old(self).edge_count(),
    {
        self.dep_graph.clear_effect(id);
        self.effect_stack.push(id);
        self.tags.remove_tag(WorldTag::NoDep)
    }

    /// Ends running an effect's function: it stops being the running effect,
    /// the tag state entered by [`Self::begin_force_run`] is left, and the
    /// effect becomes fresh.
    pub fn end_force_run(&mut self, id: u64, guard: WorldTagGuard)
        requires
            old(self).wf(),
            old(self).stack().len() > 0,
        ensures
            final(self).wf(),
            final(self).stack() == old(self).stack().drop_last(),
            final(self).effects() == with_fresh(old(self).effects(), id, true),
            final(self).links() == old(self).links(),
            final(self).tags().stack(guard.tag()) == take_at(old(self).tags().stack(guard.tag()), guard.idx() as int).1,
            forall|t: WorldTag| t != guard.tag() ==> #[trigger] final(self).tags().stack(t) == old(self).tags().stack(t),
            final(self).next_effect() == old(self).next_effect(),
            final(self).next_trigger() == old(self).next_trigger(),
            final(self).node_count() == old(self).node_count(),
            final(self).edge_count() == old(self).edge_count(),
            final(self).queue() == old(self).queue(),
    {
        self.effect_stack.pop();
        self.tags.release(guard);
        if let Some(f) = self.effect_flags(id) {
            self.set_flags(id, EffectFlags { fresh: true, ..f });
        }
    }

    /// Pushes an effect on the stack of running effects, so that it gathers
    /// the dependencies used until [`Self::pop_running`].
    pub fn push_running(&mut self, id: u64)
        requires
            old(self).wf(),
        ensures
            final(self).wf(),
            final(self).stack() == old(self).stack().push(id),
            final(self).links() == old(self).links(),
            final(self).effects() == old(self).effects(),
            final(self).next_effect() == old(self).next_effect(),
            final(self).tags() == old(self).tags(),
            final(self).queue() == old(self).queue(),
            final(self).next_trigger() == old(self).next_trigger(),
            final(self).node_count() == old(self).node_count(),
            final(self).edge_count() == old(self).edge_count(),
    {
        self.effect_stack.push(id);
    }

    /// Pops the innermost running effect.
    pub fn pop_running(&mut self)
        requires
            old(self).wf(),
            old(self).stack().len() > 0,
        ensures
            final(self).wf(),
            final(self).stack() == old(self).stack().drop_last(),
            final(self).links() == old(self).links(),
            final(self).effects() == old(self).effects(),
            final(self).next_effect() == old(self).next_effect(),
            final(self).tags() == old(self).tags(),
            final(self).queue() == old(self).queue(),
            final(self).next_trigger() == old(self).next_trigger(),
            final(self).node_count() == old(self).node_count(),
            final(self).edge_count() == old(self).edge_count(),
    {
        self.effect_stack.pop();
    }
}

} // verus!
