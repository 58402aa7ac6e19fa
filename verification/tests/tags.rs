use dynatos::holey_stack::HoleyStack;
use dynatos::tags::{WorldTag, WorldTagState, WorldTagsData};
use dynatos::world::World;

#[test]
fn tag_guards_restore() {
    let mut tags = WorldTagsData::new();
    assert_eq!(tags.get(WorldTag::NoDep), None);
    assert!(!tags.has_tag(WorldTag::NoDep));

    let g1 = tags.add_tag(WorldTag::NoDep);
    assert!(tags.has_tag(WorldTag::NoDep));
    let g2 = tags.remove_tag(WorldTag::NoDep);
    assert!(!tags.has_tag(WorldTag::NoDep));
    assert_eq!(tags.get(WorldTag::NoDep), Some(WorldTagState::Disabled));
    // Other tags are untouched
    assert_eq!(tags.get(WorldTag::NoRun), None);

    // Leaving the outer state first keeps the inner one in force
    tags.release(g1);
    assert_eq!(tags.get(WorldTag::NoDep), Some(WorldTagState::Disabled));
    tags.release(g2);
    assert_eq!(tags.get(WorldTag::NoDep), None);

    let g = tags.push(WorldTag::Unloaded, WorldTagState::Enabled);
    assert!(tags.has_tag(WorldTag::Unloaded));
    tags.release(g);
    assert!(!tags.has_tag(WorldTag::Unloaded));
}

#[test]
fn no_run_tag_stops_execution() {
    let mut w = World::new();
    let t = w.create_trigger();
    let e = w.create_effect();
    w.push_running(e);
    w.gather_subs(t, dynatos::loc::Loc::new("tests/tags.rs", 1, 1));
    w.pop_running();

    let guard = w.add_tag(WorldTag::NoRun);
    assert!(w.has_tag(WorldTag::NoRun));
    assert!(w.exec_trigger(t, dynatos::loc::Loc::new("tests/tags.rs", 2, 1)).is_none());
    w.release_tag(guard);
    assert!(!w.has_tag(WorldTag::NoRun));
    let exec = w.exec_trigger(t, dynatos::loc::Loc::new("tests/tags.rs", 3, 1)).expect("Executes");
    assert!(w.is_stale(e));
    assert!(w.release_exec(exec).is_some());
}

#[test]
fn no_dep_tag_stops_gathering() {
    let mut w = World::new();
    let t = w.create_trigger();
    let e = w.create_effect();
    w.push_running(e);
    let guard = w.add_tag(WorldTag::NoDep);
    assert_eq!(
        w.gather_subs(t, dynatos::loc::Loc::new("tests/tags.rs", 4, 1)),
        dynatos::world::GatherOutcome::NoDep
    );
    w.release_tag(guard);
    assert_eq!(
        w.gather_subs(t, dynatos::loc::Loc::new("tests/tags.rs", 5, 1)),
        dynatos::world::GatherOutcome::Gathered
    );
    w.pop_running();
    assert_eq!(w.effect_dependencies(e), vec![t]);
}

#[test]
fn holey_stack_takes_holes() {
    let mut s = HoleyStack::new();
    let a = s.push(1);
    let b = s.push(2);
    let c = s.push(3);
    assert_eq!(s.top(), Some(&3));
    assert_eq!(s.pop(b), Some(2));
    assert_eq!(s.pop(b), None);
    assert_eq!(s.len(), 3);
    assert_eq!(s.pop(c), Some(3));
    // The hole below the top is trimmed along with it
    assert_eq!(s.len(), 1);
    assert_eq!(s.top(), Some(&1));
    assert_eq!(s.get(a), Some(&1));
    assert_eq!(s.pop(a), Some(1));
    assert_eq!(s.len(), 0);
    assert_eq!(s.top(), None);
}
