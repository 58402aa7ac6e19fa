use dynatos::dep_graph::Node;
use dynatos::loc::Loc;
use dynatos::tags::WorldTag;
use dynatos::world::{DrainStep, GatherOutcome, TriggerExec, World};
use std::cell::{Cell, RefCell};
use std::collections::HashMap;
use std::rc::Rc;

/// Body of an effect, run with the runtime it lives in.
type Body = Rc<dyn Fn(&mut Rt)>;

/// A small runtime over a world: effects with bodies, run as the
/// reactivity runtime runs them.
struct Rt {
    w: World,
    bodies: HashMap<u64, Body>,
}

fn here() -> Loc {
    Loc::new("tests/reactive.rs", 1, 1)
}

impl Rt {
    fn new() -> Self {
        Rt { w: World::new(), bodies: HashMap::new() }
    }

    fn trigger(&mut self) -> u64 {
        self.w.create_trigger()
    }

    /// Creates an effect and runs it once.
    fn effect(&mut self, body: impl Fn(&mut Rt) + 'static) -> u64 {
        let id = self.effect_raw(body);
        self.force_run(id);
        id
    }

    /// Creates an effect without running it.
    fn effect_raw(&mut self, body: impl Fn(&mut Rt) + 'static) -> u64 {
        let id = self.w.create_effect();
        self.bodies.insert(id, Rc::new(body));
        id
    }

    fn drop_effect(&mut self, id: u64) {
        self.w.drop_effect(id);
        self.bodies.remove(&id);
    }

    fn force_run(&mut self, id: u64) {
        assert!(self.w.tag_room(WorldTag::NoDep));
        let no_dep = self.w.begin_force_run(id);
        if let Some(body) = self.bodies.get(&id).cloned() {
            body(self);
        }
        self.w.end_force_run(id, no_dep);
    }

    /// Runs the effect if stale, bringing what it depends on up to date first.
    fn run(&mut self, id: u64) {
        if !self.w.begin_run(id) {
            return;
        }
        assert!(self.w.deps_walkable(Node::Effect(id)), "Trigger/effect had the wrong edge type");
        for trigger in self.w.effect_dependencies(id) {
            assert!(self.w.deps_walkable(Node::Trigger(trigger)), "Trigger/effect had the wrong edge type");
            for effect in self.w.trigger_dependencies(trigger) {
                if self.w.is_alive(effect) {
                    self.run(effect);
                }
            }
        }
        if self.w.end_check(id) {
            self.force_run(id);
        }
    }

    fn gather(&mut self, trigger: u64) -> GatherOutcome {
        assert!(self.w.room_left());
        self.w.gather_subs(trigger, here())
    }

    fn exec(&mut self, trigger: u64) -> Option<TriggerExec> {
        assert!(self.w.room_left());
        self.w.exec_trigger(trigger, here())
    }

    fn release(&mut self, exec: Option<TriggerExec>) {
        let Some(exec) = exec else { return };
        let Some(guard) = self.w.release_exec(exec) else { return };
        loop {
            match self.w.drain_step() {
                DrainStep::Run(id, _) => self.run(id),
                DrainStep::Skip(_) => {},
                DrainStep::Done => break,
            }
        }
        self.w.end_exec(guard);
    }

    fn exec_now(&mut self, trigger: u64) {
        let exec = self.exec(trigger);
        self.release(exec);
    }
}

fn counter() -> Rc<Cell<usize>> {
    Rc::new(Cell::new(0))
}

#[test]
fn basic() {
    let mut rt = Rt::new();
    let triggers = counter();

    let trigger = rt.trigger();
    let c = triggers.clone();
    let effect = rt.effect(move |rt| {
        rt.gather(trigger);
        c.set(c.get() + 1);
    });

    assert_eq!(triggers.get(), 1, "Trigger was triggered early");

    // Then trigger and ensure it was triggered
    rt.exec_now(trigger);
    assert_eq!(triggers.get(), 2, "Trigger was not triggered");

    // Finally drop the effect and try again
    rt.drop_effect(effect);
    rt.exec_now(trigger);
    assert_eq!(triggers.get(), 2, "Trigger was triggered after effect was dropped");
}

#[test]
fn trigger_exec_multiple() {
    let mut rt = Rt::new();
    let triggers = counter();

    let trigger = rt.trigger();
    let c = triggers.clone();
    let _effect = rt.effect(move |rt| {
        rt.gather(trigger);
        c.set(c.get() + 1);
    });

    let exec0 = rt.exec(trigger);
    assert_eq!(triggers.get(), 1, "Trigger was triggered when executing");
    let exec1 = rt.exec(trigger);

    rt.release(exec1);
    assert_eq!(triggers.get(), 1, "Trigger was triggered when dropping a single executor");

    rt.release(exec0);
    assert_eq!(triggers.get(), 2, "Trigger wasn't triggered when dropping last executor");
}

#[test]
fn exec_multiple_same_effect() {
    let mut rt = Rt::new();
    let triggers = counter();

    let trigger0 = rt.trigger();
    let trigger1 = rt.trigger();
    let c = triggers.clone();
    let _effect = rt.effect(move |rt| {
        rt.gather(trigger0);
        rt.gather(trigger1);
        c.set(c.get() + 1);
    });

    let exec0 = rt.exec(trigger0);
    let exec1 = rt.exec(trigger1);

    rt.release(exec0);
    rt.release(exec1);

    assert_eq!(triggers.get(), 2, "Effect was run multiple times in same run queue");

    rt.exec_now(trigger0);

    assert_eq!(triggers.get(), 3, "Effect wasn't run even when no other executors existed");
}

#[test]
fn fresh_stale() {
    let mut rt = Rt::new();
    let count = counter();

    assert_eq!(count.get(), 0);
    let c = count.clone();
    let effect = rt.effect(move |_| c.set(c.get() + 1));
    assert_eq!(count.get(), 1, "Effect wasn't run on creation");
    rt.run(effect);
    assert_eq!(count.get(), 1, "Effect was ran despite being fresh");
    rt.w.set_stale(effect);
    rt.run(effect);
    assert_eq!(count.get(), 2, "Effect wasn't run despite being stale");
    rt.run(effect);
    assert_eq!(count.get(), 2, "Effect was ran despite being fresh");

    rt.force_run(effect);
    assert_eq!(count.get(), 3, "Effect wasn't run when fresh despite force running");
}

/// `run` runs an effect only when it is stale: a freshly created effect has
/// just run, so it is left alone until something makes it stale.
#[test]
fn run() {
    let mut rt = Rt::new();
    let count = counter();

    assert_eq!(count.get(), 0);
    let c = count.clone();
    let effect = rt.effect(move |_| c.set(c.get() + 1));
    assert_eq!(count.get(), 1);
    rt.run(effect);
    assert_eq!(count.get(), 1);
    rt.w.set_stale(effect);
    rt.run(effect);
    assert_eq!(count.get(), 2);
}

#[test]
fn running() {
    let mut rt = Rt::new();
    let seen: Rc<Cell<Option<u64>>> = Rc::new(Cell::new(None));

    let s = seen.clone();
    let effect = rt.effect(move |rt| {
        assert!(s.get().is_none(), "Unable to set running effect");
        s.set(Some(rt.w.running().expect("Future wasn't running")));
    });

    let running = seen.get().expect("Running effect missing");
    assert_eq!(effect, running);
    assert_eq!(rt.w.running(), None);
}

#[test]
fn running_stacked() {
    let mut rt = Rt::new();
    let top: Rc<Cell<Option<u64>>> = Rc::new(Cell::new(None));
    let bottom: Rc<Cell<Option<u64>>> = Rc::new(Cell::new(None));
    let inner_effect: Rc<Cell<Option<u64>>> = Rc::new(Cell::new(None));

    let (t, b, i) = (top.clone(), bottom.clone(), inner_effect.clone());
    let effect = rt.effect(move |rt| {
        t.set(Some(rt.w.running().expect("Future wasn't running")));

        let b2 = b.clone();
        let inner = rt.effect(move |rt| {
            b2.set(Some(rt.w.running().expect("Future wasn't running")));
        });
        i.set(Some(inner));

        let running_bottom = b.get().expect("Running effect missing");
        assert_eq!(inner, running_bottom);
        // Back in the outer effect once the inner one ran
        assert_eq!(rt.w.running(), t.get());
    });

    let running_top = top.get().expect("Running effect missing");
    assert_eq!(effect, running_top);
    assert_ne!(inner_effect.get(), Some(effect));
}

#[test]
fn multiple() {
    let mut rt = Rt::new();
    let count = counter();

    let a = rt.trigger();
    let c = count.clone();
    let _effect = rt.effect(move |rt| {
        rt.gather(a);
        rt.gather(a);
        c.set(c.get() + 1);
    });

    assert_eq!(count.get(), 1);
    rt.exec_now(a);
    assert_eq!(count.get(), 2, "Effect was run multiple times");
}

#[test]
fn order() {
    // a0 -> a1 -> a2 -> c <- b
    let mut rt = Rt::new();
    let a: Vec<u64> = (0..3).map(|_| rt.trigger()).collect();
    let b = rt.trigger();

    let a_first = *a.first().expect("Empty `a`s");
    let a_last = *a.last().expect("Empty `a`s");

    for pair in a.windows(2) {
        let (lhs, rhs) = (pair[0], pair[1]);
        assert_ne!(lhs, rhs);
        rt.effect(move |rt| {
            rt.gather(lhs);
            rt.exec_now(rhs);
        });
    }

    let count = counter();
    let c = count.clone();
    let _c = rt.effect(move |rt| {
        rt.gather(a_last);
        rt.gather(b);
        c.set(c.get() + 1);
    });

    assert_eq!(count.get(), 1);

    let ea = rt.exec(a_first);
    let eb = rt.exec(b);
    rt.release(ea);
    rt.release(eb);
    assert_eq!(count.get(), 2);

    let eb = rt.exec(b);
    let ea = rt.exec(a_first);
    rt.release(eb);
    rt.release(ea);
    assert_eq!(count.get(), 3);
}

#[test]
fn breadth_first() {
    // Two derived values, `a2` from `a` and `b2` from `b`, and an effect
    // `c` reading both: each derived value is an effect that executes its
    // own trigger after computing.
    let mut rt = Rt::new();
    let order: Rc<RefCell<Vec<&'static str>>> = Rc::new(RefCell::new(vec![]));

    let a = rt.trigger();
    let b = rt.trigger();
    let a2_trigger = rt.trigger();
    let b2_trigger = rt.trigger();

    let o = order.clone();
    let _a2 = rt.effect(move |rt| {
        o.borrow_mut().push("a2");
        rt.gather(a);
        rt.exec_now(a2_trigger);
    });
    let o = order.clone();
    let _b2 = rt.effect(move |rt| {
        o.borrow_mut().push("b2");
        rt.gather(b);
        rt.exec_now(b2_trigger);
    });
    let o = order.clone();
    let _c = rt.effect(move |rt| {
        o.borrow_mut().push("c");
        rt.gather(a2_trigger);
        rt.gather(b2_trigger);
    });

    order.borrow_mut().clear();

    let ea = rt.exec(a);
    let eb = rt.exec(b);
    rt.release(ea);
    rt.release(eb);
    assert_eq!(*order.borrow(), ["a2", "b2", "c"], "Effect was run with wrong order");
}

#[test]
fn suppressed_effect_is_not_queued() {
    let mut rt = Rt::new();
    let count = counter();

    let t = rt.trigger();
    let c = count.clone();
    let e = rt.effect(move |rt| {
        rt.gather(t);
        c.set(c.get() + 1);
    });

    let prev = rt.w.suppress(e);
    assert!(!prev);
    rt.exec_now(t);
    assert_eq!(count.get(), 1);
    rt.w.restore_suppressed(e, prev);
    assert!(!rt.w.is_suppressed(e));
    rt.exec_now(t);
    assert_eq!(count.get(), 2);
}

#[test]
fn gather_outside_effect() {
    let mut rt = Rt::new();
    let t = rt.trigger();
    assert_eq!(rt.gather(t), GatherOutcome::NoEffect);
}

#[test]
fn exec_marks_stale() {
    let mut rt = Rt::new();
    let t = rt.trigger();
    let e = rt.effect(move |rt| {
        rt.gather(t);
    });
    assert!(rt.w.is_fresh(e));
    let exec = rt.exec(t);
    assert!(rt.w.is_stale(e));
    rt.release(exec);
    assert!(rt.w.is_fresh(e));
}

#[test]
fn dependencies_are_listed() {
    let mut rt = Rt::new();
    let t0 = rt.trigger();
    let t1 = rt.trigger();
    let e = rt.effect(move |rt| {
        rt.gather(t0);
        rt.gather(t1);
    });
    assert!(rt.w.deps_walkable(Node::Effect(e)));
    let mut deps = rt.w.effect_dependencies(e);
    deps.sort();
    assert_eq!(deps, vec![t0, t1]);

    let w = rt.effect(move |rt| {
        rt.exec_now(t0);
    });
    assert!(rt.w.deps_walkable(Node::Trigger(t0)));
    assert_eq!(rt.w.trigger_dependencies(t0), vec![w]);
}

#[test]
fn dot_export_lists_nodes() {
    let mut rt = Rt::new();
    let t = rt.trigger();
    let e = rt.effect(move |rt| {
        rt.gather(t);
    });
    let mut trigger_locs = HashMap::new();
    trigger_locs.insert(t, Loc::new("defs.rs", 3, 14));
    let mut effect_locs = HashMap::new();
    effect_locs.insert(e, Loc::new("defs.rs", 7, 2));
    let dot = rt.w.export_dot(&trigger_locs, &effect_locs);
    assert!(dot.starts_with("digraph"));
    assert!(dot.contains("Trigger(defs.rs:3:14)"));
    assert!(dot.contains("Effect(defs.rs:7:2)"));
    assert!(dot.contains("Gather(tests/reactive.rs:1:1)"));
    assert!(dot.contains("->"));

    // A node missing from the locations is shown as dropped
    let dot = rt.w.export_dot(&trigger_locs, &HashMap::new());
    assert!(dot.contains("Effect(<dropped>)"));
    assert!(!dot.contains("Effect(defs.rs"));
}

#[test]
fn loc_text_is_file_line_column() {
    assert_eq!(Loc::new("src/lib.rs", 12, 304).text(), "src/lib.rs:12:304");
    assert_eq!(Loc::new("a.rs", 0, 9).text(), "a.rs:0:9");
    assert_eq!(Loc::new("b.rs", u32::MAX, 10).text(), "b.rs:4294967295:10");
}

#[test]
fn rerun_gathers_anew() {
    let mut rt = Rt::new();
    let t0 = rt.trigger();
    let t1 = rt.trigger();
    let first = Rc::new(Cell::new(true));
    let f = first.clone();
    let e = rt.effect(move |rt| {
        if f.get() {
            rt.gather(t0);
        } else {
            rt.gather(t1);
        }
    });
    assert_eq!(rt.w.effect_dependencies(e), vec![t0]);

    first.set(false);
    rt.force_run(e);
    assert_eq!(rt.w.effect_dependencies(e), vec![t1]);

    // The old dependency no longer runs the effect
    assert!(rt.w.is_fresh(e));
    let exec = rt.exec(t0);
    assert!(rt.w.is_fresh(e));
    rt.release(exec);
}

#[test]
fn nested_suppression_restores() {
    let mut rt = Rt::new();
    let count = counter();

    let t = rt.trigger();
    let c = count.clone();
    let e = rt.effect(move |rt| {
        rt.gather(t);
        c.set(c.get() + 1);
    });

    let outer = rt.w.suppress(e);
    let inner = rt.w.suppress(e);
    assert!(!outer);
    assert!(inner);
    rt.exec_now(t);
    assert_eq!(count.get(), 1);
    rt.w.restore_suppressed(e, inner);
    assert!(rt.w.is_suppressed(e));
    rt.exec_now(t);
    assert_eq!(count.get(), 1);
    rt.w.restore_suppressed(e, outer);
    assert!(!rt.w.is_suppressed(e));
    rt.exec_now(t);
    assert_eq!(count.get(), 2);
}

#[test]
fn dependency_kept_until_own_clear() {
    let mut rt = Rt::new();
    let t = rt.trigger();
    let e = rt.effect(move |rt| {
        rt.gather(t);
    });
    let other = rt.effect(move |rt| {
        rt.gather(t);
    });

    // Re-running (and so clearing) the other effect keeps `e` subscribed
    rt.force_run(other);
    let exec = rt.exec(t);
    assert!(rt.w.is_stale(e));
    rt.release(exec);
    assert!(rt.w.is_fresh(e));
}

/// The "no-dep" tag only affects its own frame: an effect run inside it
/// still gathers its dependencies, while a gathering in the frame itself
/// does not.
#[test]
fn no_dep_lifted_while_effect_runs() {
    let mut rt = Rt::new();
    let count = counter();
    let trigger = rt.trigger();

    let no_dep = rt.w.add_tag(WorldTag::NoDep);
    let c = count.clone();
    let effect = rt.effect(move |rt| {
        assert_eq!(rt.gather(trigger), GatherOutcome::Gathered);
        c.set(c.get() + 1);
    });
    assert!(rt.w.has_tag(WorldTag::NoDep));
    rt.w.push_running(effect);
    assert_eq!(rt.gather(trigger), GatherOutcome::NoDep);
    rt.w.pop_running();
    rt.w.release_tag(no_dep);

    assert!(rt.w.deps_walkable(Node::Effect(effect)));
    assert_eq!(rt.w.effect_dependencies(effect), vec![trigger]);
    rt.exec_now(trigger);
    assert_eq!(count.get(), 2);
}

/// A drain takes out the effect queued longest ago first, one per step,
/// and ends once the queue is empty.
#[test]
fn drain_takes_oldest_first_and_ends() {
    let mut w = World::new();
    let t = w.create_trigger();
    let a = w.create_effect();
    let b = w.create_effect();
    for e in [a, b] {
        w.push_running(e);
        assert_eq!(w.gather_subs(t, here()), GatherOutcome::Gathered);
        w.pop_running();
    }
    let exec = w.exec_trigger(t, here()).expect("Trigger wasn't executed");
    let guard = w.release_exec(exec).expect("Nothing to drain");
    // `b` gathered last, so it is the first subscriber queued
    assert!(matches!(w.drain_step(), DrainStep::Run(x, _) if x == b));
    assert!(matches!(w.drain_step(), DrainStep::Run(x, _) if x == a));
    assert!(matches!(w.drain_step(), DrainStep::Done));
    w.end_exec(guard);
}

/// While a drain is going on, releasing another execution hands out no
/// second drain guard: what it queued is taken by the running drain.
#[test]
fn one_drain_at_a_time() {
    let mut w = World::new();
    let t = w.create_trigger();
    let a = w.create_effect();
    w.push_running(a);
    assert_eq!(w.gather_subs(t, here()), GatherOutcome::Gathered);
    w.pop_running();

    let exec = w.exec_trigger(t, here()).expect("Trigger wasn't executed");
    let guard = w.release_exec(exec).expect("Nothing to drain");
    assert!(matches!(w.drain_step(), DrainStep::Run(x, _) if x == a));
    let again = w.exec_trigger(t, here()).expect("Trigger wasn't executed");
    assert!(w.release_exec(again).is_none());
    assert!(matches!(w.drain_step(), DrainStep::Run(x, _) if x == a));
    assert!(matches!(w.drain_step(), DrainStep::Done));
    w.end_exec(guard);
    assert!(matches!(w.drain_step(), DrainStep::Done));
}
