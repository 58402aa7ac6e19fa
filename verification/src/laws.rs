//! Properties of the reactivity runtime that span several operations.

use vstd::prelude::*;
use crate::holey_stack::{no_top_hole, take_at, top_of, trim_holes, lemma_trim_holes_props};
use crate::effect_stack::top_effect;
use crate::tags::{WorldTag, WorldTagState, WorldTagsData, state_enabled};
use crate::store::stack_of;
use crate::run_queue::{RunQueueState, queue_push, is_first, released};
use crate::dep_graph::{Link, Node, Edge, Dir, EffectDepInfo, far_ends, links_without, link_well_kinded, lemma_kinds, link_matches, link_far};
use crate::world::{
    EffectFlags, enqueue_subs, runnable, node_id, with_fresh, with_suppressed, would_run, is_suppressed_in,
};

verus! {

/// Taking back a value right after pushing it returns that value and leaves
/// the stack as it was.
pub proof fn law_push_take_roundtrip<T>(s: Seq<Option<T>>, v: T)
    requires
        no_top_hole(s),
    ensures
        take_at(s.push(Some(v)), s.len() as int) == (Some(v), s),
{
    let p = s.push(Some(v));
    assert(p.update(s.len() as int, None).drop_last() =~= s);
    lemma_trim_holes_props(s);
}

/// The value pushed last is the top of the stack.
pub proof fn law_push_is_top<T>(s: Seq<Option<T>>, v: T)
    ensures
        top_of(s.push(Some(v))) == Some(v),
{
}

/// Taking out an entry below the top leaves the top unchanged.
pub proof fn law_take_below_top_keeps_top<T>(s: Seq<Option<T>>, idx: int)
    requires
        no_top_hole(s),
        0 <= idx < s.len() - 1,
    ensures
        top_of(take_at(s, idx).1) == top_of(s),
{
    if s[idx] is Some {
        let u = s.update(idx, None);
        assert(u.last() == s.last());
        lemma_trim_holes_props(u);
    }
}

/// Taking out the top entry uncovers the entry below it, or the one below
/// that if it was taken already, and so on.
pub proof fn law_take_top_uncovers<T>(s: Seq<Option<T>>)
    requires
        no_top_hole(s),
        s.len() > 0,
    ensures
        take_at(s, s.len() - 1).1 == trim_holes(s.drop_last()),
{
    let u = s.update(s.len() - 1, None);
    assert(u.drop_last() =~= s.drop_last());
}

/// A value can be taken out only once.
pub proof fn law_take_once<T>(s: Seq<Option<T>>, idx: int)
    requires
        no_top_hole(s),
    ensures
        take_at(take_at(s, idx).1, idx).0 is None,
{
    if 0 <= idx < s.len() && s[idx] is Some {
        let u = s.update(idx, None);
        lemma_trim_holes_props(u);
        let t = trim_holes(u);
        if idx < t.len() {
            assert(t[idx] == u[idx]);
        }
    }
}

/// A value pushed into a store for a key is the value seen for that key, and
/// taking it back through its handle gives it back and leaves the key's
/// stack as it was before the push.
pub proof fn law_store_push_take<V>(stacks: Map<u64, Seq<Option<V>>>, key: u64, v: V)
    requires
        no_top_hole(stack_of(stacks, key)),
    ensures
        top_of(stack_of(stacks.insert(key, stack_of(stacks, key).push(Some(v))), key)) == Some(v),
        take_at(stack_of(stacks.insert(key, stack_of(stacks, key).push(Some(v))), key), stack_of(stacks, key).len() as int)
            == (Some(v), stack_of(stacks, key)),
        forall|k: u64| k != key ==> #[trigger] stack_of(stacks.insert(key, stack_of(stacks, key).push(Some(v))), k)
            == stack_of(stacks, k),
{
    law_push_take_roundtrip(stack_of(stacks, key), v);
}

/// Entering a tag state and leaving it again with its guard gives back the
/// tag's state as it was.
pub proof fn law_tag_leave_restores(s: Seq<Option<WorldTagState>>, state: WorldTagState)
    requires
        no_top_hole(s),
    ensures
        top_of(s.push(Some(state))) == Some(state),
        top_of(take_at(s.push(Some(state)), s.len() as int).1) == top_of(s),
{
    law_push_take_roundtrip(s, state);
}

/// In well-formed tags data, entering a state of a tag puts that state in
/// force, and leaving it again with its guard gives back the tag's state as
/// it was; the other tags are not touched by either.
pub proof fn law_tags_enter_leave(d: WorldTagsData, tag: WorldTag, state: WorldTagState)
    requires
        d.wf(),
    ensures
        top_of(d.stack(tag).push(Some(state))) == Some(state),
        top_of(take_at(d.stack(tag).push(Some(state)), d.stack(tag).len() as int).1) == d.state(tag),
{
    d.lemma_wf_stacks();
    law_tag_leave_restores(d.stack(tag), state);
}

/// Adding a tag and then removing it, with guards: the tag is in force
/// after the add, out of force after the remove, back in force once the
/// remove's guard is released, and as it was once the add's guard is
/// released too. Releasing the add's guard first leaves the remove in force,
/// and releasing the other then gives back the state as it was.
pub proof fn law_tag_nested_guards(s: Seq<Option<WorldTagState>>)
    requires
        no_top_hole(s),
    ensures
        state_enabled(top_of(s.push(Some(WorldTagState::Enabled)))),
        !state_enabled(top_of(s.push(Some(WorldTagState::Enabled)).push(Some(WorldTagState::Disabled)))),
        take_at(s.push(Some(WorldTagState::Enabled)).push(Some(WorldTagState::Disabled)), (s.len() + 1) as int).1
            == s.push(Some(WorldTagState::Enabled)),
        take_at(s.push(Some(WorldTagState::Enabled)), s.len() as int).1 == s,
        !state_enabled(top_of(take_at(s.push(Some(WorldTagState::Enabled)).push(Some(WorldTagState::Disabled)), s.len() as int).1)),
        take_at(take_at(s.push(Some(WorldTagState::Enabled)).push(Some(WorldTagState::Disabled)), s.len() as int).1, (s.len() + 1) as int).1 == s,
{
    let s1 = s.push(Some(WorldTagState::Enabled));
    let s2 = s1.push(Some(WorldTagState::Disabled));
    law_push_take_roundtrip(s, WorldTagState::Enabled);
    law_push_take_roundtrip(s1, WorldTagState::Disabled);
    // Releasing the outer guard first leaves a hole below the top.
    let u = s2.update(s.len() as int, None);
    lemma_trim_holes_props(u);
    assert(trim_holes(u) == u);
    assert(u.last() == Some(WorldTagState::Disabled));
    let v = u.update((s.len() + 1) as int, None);
    assert(v.drop_last() =~= s.push(None));
    assert(s.push(None).drop_last() =~= s);
    lemma_trim_holes_props(s);
    assert(trim_holes(v) == trim_holes(s.push(None)));
}

/// Nested suppressions of an effect: while either guard lives the effect is
/// not queued, releasing the inner guard leaves it suppressed, and
/// releasing the outer one gives back the flags as they were.
pub proof fn law_nested_suppress(effects: Map<u64, EffectFlags>, id: u64)
    ensures
        !runnable(with_suppressed(effects, id, true), id),
        !runnable(with_suppressed(with_suppressed(effects, id, true), id, true), id),
        with_suppressed(with_suppressed(with_suppressed(effects, id, true), id, true), id,
            is_suppressed_in(with_suppressed(effects, id, true), id)) == with_suppressed(effects, id, true),
        with_suppressed(
            with_suppressed(with_suppressed(with_suppressed(effects, id, true), id, true), id,
                is_suppressed_in(with_suppressed(effects, id, true), id)),
            id, is_suppressed_in(effects, id)) == effects,
{
    let e1 = with_suppressed(effects, id, true);
    law_suppress_restore(e1, id);
    law_suppress_restore(effects, id);
}

/// Pushing an effect that is already queued keeps it queued once, moves it
/// behind every other queued effect and keeps the info it was first queued with.
pub proof fn law_push_queued_moves_back(q: RunQueueState, sub: u64, info: Seq<EffectDepInfo>)
    requires
        q.queued.contains_key(sub),
        forall|i: u64| #[trigger] q.queued.contains_key(i) ==> q.queued[i] < q.next,
    ensures
        queue_push(q, sub, info).queued.dom() == q.queued.dom(),
        queue_push(q, sub, info).infos == q.infos,
        forall|i: u64| #[trigger] q.queued.contains_key(i) && i != sub ==> queue_push(q, sub, info).queued[i] < queue_push(q, sub, info).queued[sub],
{
    assert(queue_push(q, sub, info).queued.dom() =~= q.queued.dom());
}

/// Effects come out of the run queue in the order they were last pushed:
/// after pushing `a` and then `b`, `b` is not first while `a` is queued.
pub proof fn law_queue_order(q: RunQueueState, a: u64, ia: Seq<EffectDepInfo>, b: u64, ib: Seq<EffectDepInfo>)
    requires
        a != b,
        q.next + 1 < usize::MAX,
    ensures
        queue_push(queue_push(q, a, ia), b, ib).queued[a] < queue_push(queue_push(q, a, ia), b, ib).queued[b],
        !is_first(queue_push(queue_push(q, a, ia), b, ib).queued, b),
{
    let q2 = queue_push(queue_push(q, a, ia), b, ib);
    assert(q2.queued.contains_key(a));
}

/// Each step of a drain takes out the effect queued longest ago: its
/// sequence number is below that of every other queued effect. The others
/// stay queued with their numbers, and one fewer effect is queued, so a
/// drain that queues nothing new ends after as many steps as effects were
/// queued.
pub proof fn law_drain_step_progress(q: RunQueueState, id: u64)
    requires
        q.queued.dom().finite(),
        forall|i: u64, j: u64| #[trigger] q.queued.contains_key(i) && #[trigger] q.queued.contains_key(j)
            && i != j ==> q.queued[i] != q.queued[j],
        is_first(q.queued, id),
    ensures
        forall|j: u64| #[trigger] q.queued.contains_key(j) && j != id ==> q.queued[id] < q.queued[j],
        forall|j: u64| #[trigger] q.queued.remove(id).contains_key(j) <==> (q.queued.contains_key(j) && j != id),
        forall|j: u64| #[trigger] q.queued.remove(id).contains_key(j) ==> q.queued.remove(id)[j] == q.queued[j],
        q.queued.remove(id).dom().len() + 1 == q.queued.dom().len(),
{
    assert(q.queued.remove(id).dom() =~= q.queued.dom().remove(id));
}

/// Whether taking out `ids` one after the other, each time the first of
/// what is left (as each step of a drain does), empties `queued`.
pub open spec fn drains_to_empty(queued: Map<u64, usize>, ids: Seq<u64>) -> bool
    decreases ids.len(),
{
    if ids.len() == 0 {
        queued.dom().is_empty()
    } else {
        is_first(queued, ids[0]) && drains_to_empty(queued.remove(ids[0]), ids.drop_first())
    }
}

/// A drain during which nothing is queued takes out every queued effect
/// exactly once, in the order of their sequence numbers, that is the order
/// in which they were last queued, and then finds the queue empty.
pub proof fn law_drain_fifo(queued: Map<u64, usize>, ids: Seq<u64>)
    requires
        queued.dom().finite(),
        forall|i: u64, j: u64| #[trigger] queued.contains_key(i) && #[trigger] queued.contains_key(j)
            && i != j ==> queued[i] != queued[j],
        drains_to_empty(queued, ids),
    ensures
        ids.len() == queued.dom().len(),
        forall|j: u64| #[trigger] queued.contains_key(j) <==> ids.contains(j),
        forall|a: int, b: int| 0 <= a < b < ids.len() ==> queued[#[trigger] ids[a]] < queued[#[trigger] ids[b]],
    decreases ids.len(),
{
    if ids.len() == 0 {
        assert(queued.dom() =~= Set::<u64>::empty());
    } else {
        let id = ids[0];
        let rest = ids.drop_first();
        let r = queued.remove(id);
        assert(r.dom() =~= queued.dom().remove(id));
        law_drain_fifo(r, rest);
        assert forall|j: u64| #[trigger] queued.contains_key(j) <==> ids.contains(j) by {
            if queued.contains_key(j) && j != id {
                assert(r.contains_key(j));
                let k = choose|k: int| 0 <= k < rest.len() && rest[k] == j;
                assert(ids[k + 1] == j);
            }
            if ids.contains(j) && j != id {
                let k = choose|k: int| 0 <= k < ids.len() && ids[k] == j;
                assert(rest[k - 1] == j);
                assert(rest.contains(j));
            }
            if j == id {
                assert(ids[0] == j);
            }
        }
        assert forall|a: int, b: int| 0 <= a < b < ids.len() implies queued[#[trigger] ids[a]] < queued[#[trigger] ids[b]] by {
            assert(ids[b] == rest[b - 1]);
            assert(rest.contains(ids[b]));
            assert(r.contains_key(ids[b]));
            if a == 0 {
                assert(queued.contains_key(ids[b]));
                assert(queued[id] <= queued[ids[b]]);
            } else {
                assert(ids[a] == rest[a - 1]);
                assert(r[rest[a - 1]] < r[rest[b - 1]]);
            }
        }
    }
}

/// While the queue is being drained, no release of an execution hands out
/// another drain guard, whatever the count of executions, and the queue
/// stays marked as being drained; queueing effects meanwhile only adds to
/// the queue. So at most one drain runs at a time.
pub proof fn law_one_drain_at_a_time(q: RunQueueState, sub: u64, info: Seq<EffectDepInfo>)
    requires
        q.is_exec,
        q.ref_count > 0,
    ensures
        !released(q).1,
        released(q).0.is_exec,
        queue_push(q, sub, info).is_exec,
        queue_push(q, sub, info).ref_count == q.ref_count,
{
}

/// An execution of a trigger queues every existing, unsuppressed effect
/// that gathered it.
pub proof fn law_exec_queues_subscribers(q: RunQueueState, effects: Map<u64, EffectFlags>, links: Seq<Link>, trigger: u64, e: u64)
    requires
        far_ends(links, Node::Trigger(trigger), Dir::Outgoing).contains(Node::Effect(e)),
        runnable(effects, e),
    ensures
        enqueue_subs(q, effects, links, trigger, far_ends(links, Node::Trigger(trigger), Dir::Outgoing).len() as int).queued.contains_key(e),
{
    let fe = far_ends(links, Node::Trigger(trigger), Dir::Outgoing);
    let k = choose|k: int| 0 <= k < fe.len() && fe[k] == Node::Effect(e);
    lemma_enqueue_keeps(q, effects, links, trigger, k + 1, fe.len() as int, e);
}

proof fn lemma_enqueue_keeps(q: RunQueueState, effects: Map<u64, EffectFlags>, links: Seq<Link>, trigger: u64, k: int, m: int, e: u64)
    requires
        0 < k <= m,
        far_ends(links, Node::Trigger(trigger), Dir::Outgoing)[k - 1] == Node::Effect(e),
        runnable(effects, e),
    ensures
        enqueue_subs(q, effects, links, trigger, m).queued.contains_key(e),
    decreases m - k,
{
    if m > k {
        lemma_enqueue_keeps(q, effects, links, trigger, k, m - 1, e);
    }
}

/// An execution queues nothing but the existing, unsuppressed effects that
/// gathered the trigger: an effect that was dropped is never queued anew.
pub proof fn law_exec_queues_only_subscribers(q: RunQueueState, effects: Map<u64, EffectFlags>, links: Seq<Link>, trigger: u64, k: int, e: u64)
    requires
        forall|m: int| 0 <= m < links.len() ==> link_well_kinded(#[trigger] links[m]),
        0 <= k <= far_ends(links, Node::Trigger(trigger), Dir::Outgoing).len(),
        enqueue_subs(q, effects, links, trigger, k).queued.contains_key(e),
    ensures
        q.queued.contains_key(e) || (runnable(effects, e)
            && far_ends(links, Node::Trigger(trigger), Dir::Outgoing).contains(Node::Effect(e))),
    decreases k,
{
    let fe = far_ends(links, Node::Trigger(trigger), Dir::Outgoing);
    if k > 0 {
        let n = fe[k - 1];
        let prev = enqueue_subs(q, effects, links, trigger, k - 1);
        if runnable(effects, node_id(n)) && node_id(n) == e && !prev.queued.contains_key(e) {
            lemma_kinds(links, Node::Trigger(trigger), Dir::Outgoing, k - 1);
            assert(fe[k - 1] == Node::Effect(e));
        } else {
            law_exec_queues_only_subscribers(q, effects, links, trigger, k - 1, e);
        }
    }
}

/// An effect that gathered a trigger is among the trigger's subscribers.
pub proof fn law_gathered_is_subscriber(links: Seq<Link>, trigger: u64, effect: u64, info: EffectDepInfo)
    ensures
        far_ends(
            links.push(Link { source: Node::Trigger(trigger), target: Node::Effect(effect), weight: Edge::EffectDep(info) }),
            Node::Trigger(trigger),
            Dir::Outgoing,
        ).contains(Node::Effect(effect)),
{
    let l = links.push(Link { source: Node::Trigger(trigger), target: Node::Effect(effect), weight: Edge::EffectDep(info) });
    assert(l.drop_last() =~= links);
    assert(far_ends(l, Node::Trigger(trigger), Dir::Outgoing)[0] == Node::Effect(effect));
}

/// The link an effect adds when it gathers `trigger`.
pub open spec fn gather_link(trigger: u64, effect: u64, info: EffectDepInfo) -> Link {
    Link { source: Node::Trigger(trigger), target: Node::Effect(effect), weight: Edge::EffectDep(info) }
}

proof fn lemma_far_ends_extend(a: Seq<Link>, b: Seq<Link>, n: Node, dir: Dir, x: Node)
    requires
        far_ends(a, n, dir).contains(x),
    ensures
        far_ends(a + b, n, dir).contains(x),
    decreases b.len(),
{
    if b.len() == 0 {
        assert(a + b =~= a);
    } else {
        lemma_far_ends_extend(a, b.drop_last(), n, dir, x);
        assert((a + b).drop_last() =~= a + b.drop_last());
        let rest = far_ends(a + b.drop_last(), n, dir);
        let j = choose|j: int| 0 <= j < rest.len() && rest[j] == x;
        let all = far_ends(a + b, n, dir);
        if all.len() > rest.len() {
            assert(all[j + 1] == x);
        } else {
            assert(all[j] == x);
        }
    }
}

/// An effect that gathered a trigger, and whose links were not cleared
/// since, is queued by every execution of the trigger, as long as it exists
/// and is not suppressed: whatever links were added after the gathering.
pub proof fn law_gathered_effect_is_queued(
    q: RunQueueState,
    effects: Map<u64, EffectFlags>,
    links: Seq<Link>,
    later: Seq<Link>,
    trigger: u64,
    effect: u64,
    info: EffectDepInfo,
)
    requires
        runnable(effects, effect),
    ensures
        enqueue_subs(q, effects, links.push(gather_link(trigger, effect, info)) + later, trigger,
            far_ends(links.push(gather_link(trigger, effect, info)) + later, Node::Trigger(trigger), Dir::Outgoing).len() as int,
        ).queued.contains_key(effect),
{
    let gathered = links.push(gather_link(trigger, effect, info));
    law_gathered_is_subscriber(links, trigger, effect, info);
    lemma_far_ends_extend(gathered, later, Node::Trigger(trigger), Dir::Outgoing, Node::Effect(effect));
    law_exec_queues_subscribers(q, effects, gathered + later, trigger, effect);
}

/// A dependency an effect gathered stays listed among the trigger's
/// subscribers when another effect's links are cleared: only clearing the
/// effect itself removes it.
pub proof fn law_dependency_kept_until_cleared(links: Seq<Link>, trigger: u64, effect: u64, other: u64)
    requires
        far_ends(links, Node::Trigger(trigger), Dir::Outgoing).contains(Node::Effect(effect)),
        other != effect,
    ensures
        far_ends(links_without(links, Node::Effect(other)), Node::Trigger(trigger), Dir::Outgoing).contains(Node::Effect(effect)),
    decreases links.len(),
{
    let n = Node::Trigger(trigger);
    let x = Node::Effect(effect);
    let d = links.drop_last();
    let l = links.last();
    let rest = far_ends(d, n, Dir::Outgoing);
    let all = far_ends(links, n, Dir::Outgoing);
    let w = links_without(d, Node::Effect(other));
    if link_matches(l, n, Dir::Outgoing) && link_far(l, Dir::Outgoing) == x {
        // The last link is the dependency itself, and it does not touch `other`.
        assert(!(l.source == Node::Effect(other) || l.target == Node::Effect(other)));
        let wl = w.push(l);
        assert(links_without(links, Node::Effect(other)) == wl);
        assert(wl.drop_last() =~= w);
        assert(far_ends(wl, n, Dir::Outgoing)[0] == x);
    } else {
        let j = choose|j: int| 0 <= j < all.len() && all[j] == x;
        if link_matches(l, n, Dir::Outgoing) {
            assert(j > 0);
            assert(rest[j - 1] == x);
        } else {
            assert(rest[j] == x);
        }
        law_dependency_kept_until_cleared(d, trigger, effect, other);
        let fw = far_ends(w, n, Dir::Outgoing);
        let k = choose|k: int| 0 <= k < fw.len() && fw[k] == x;
        if !(l.source == Node::Effect(other) || l.target == Node::Effect(other)) {
            let wl = w.push(l);
            assert(links_without(links, Node::Effect(other)) == wl);
            assert(wl.drop_last() =~= w);
            let fwl = far_ends(wl, n, Dir::Outgoing);
            if link_matches(l, n, Dir::Outgoing) {
                assert(fwl[k + 1] == x);
            } else {
                assert(fwl[k] == x);
            }
        }
    }
}

/// Once an effect's links are cleared (before it runs again), it is linked
/// to nothing: every dependency is gathered anew.
pub proof fn law_cleared_has_no_links(links: Seq<Link>, n: Node, m: Node, dir: Dir)
    ensures
        far_ends(links_without(links, n), n, dir) == Seq::<Node>::empty(),
        !far_ends(links_without(links, n), m, dir).contains(n),
    decreases links.len(),
{
    if links.len() > 0 {
        law_cleared_has_no_links(links.drop_last(), n, m, dir);
        let l = links.last();
        if !(l.source == n || l.target == n) {
            let w = links_without(links.drop_last(), n).push(l);
            assert(w.drop_last() =~= links_without(links.drop_last(), n));
            let rest = far_ends(links_without(links.drop_last(), n), m, dir);
            if far_ends(w, m, dir).contains(n) {
                let j = choose|j: int| 0 <= j < far_ends(w, m, dir).len() && far_ends(w, m, dir)[j] == n;
                if far_ends(w, m, dir).len() > rest.len() && j > 0 {
                    assert(rest[j - 1] == n);
                } else if far_ends(w, m, dir).len() == rest.len() {
                    assert(rest[j] == n);
                }
            }
        }
    }
}

/// An effect that just ran is fresh: checking it again does not run it,
/// until it is made stale.
pub proof fn law_ran_effect_is_fresh(effects: Map<u64, EffectFlags>, id: u64)
    ensures
        !would_run(with_fresh(effects, id, true), id),
        would_run(with_fresh(with_fresh(effects, id, true), id, false), id) == (effects.contains_key(id)
            && !effects[id].suppressed),
{
}

/// Suppressing an effect and then restoring the previous state gives back
/// the flags as they were.
pub proof fn law_suppress_restore(effects: Map<u64, EffectFlags>, id: u64)
    ensures
        with_suppressed(with_suppressed(effects, id, true), id, is_suppressed_in(effects, id)) == effects,
{
    if effects.contains_key(id) {
        assert(with_suppressed(with_suppressed(effects, id, true), id, is_suppressed_in(effects, id)) =~= effects);
    }
}

/// The effect pushed last on the stack of running effects is the running one,
/// and popping it gives back the stack as it was.
pub proof fn law_running_is_innermost(stack: Seq<u64>, id: u64)
    ensures
        top_effect(stack.push(id)) == Some(id),
        stack.push(id).drop_last() == stack,
{
    assert(stack.push(id).drop_last() =~= stack);
}

} // verus!
