//! World tags
//!
//! Each tag keeps a stack of states; the state on top decides whether the
//! tag is currently in force. Entering a state returns a guard, and leaving
//! it (through the guard) removes exactly that entry.

use vstd::prelude::*;
use crate::holey_stack::{HoleyStack, top_of, take_at, no_top_hole};

verus! {

/// Tag state
#[derive(PartialEq, Eq, Clone, Copy, Debug, Structural)]
pub enum WorldTagState {
    Enabled,
    Disabled,
}

/// Tags
#[derive(PartialEq, Eq, Clone, Copy, Debug, Structural)]
pub enum WorldTag {
    /// "no-dep" tag: no dependencies are gathered in the current reactivity
    /// frame. Running an effect lifts it for the run, so it only affects
    /// the current frame.
    NoDep,
    /// "no-run" tag: no triggers are triggered until it is removed.
    NoRun,
    /// "unloaded" tag: effects being run don't load anything.
    Unloaded,
}

/// Guard for a tag state that was entered.
///
/// Hand it back to [`WorldTagsData::release`] to leave the state. Only
/// entering a state makes one, so a guard always names an entry that was
/// entered.
#[derive(Debug)]
pub struct WorldTagGuard {
    tag: WorldTag,
    idx: usize,
}

impl WorldTagGuard {
    /// The tag whose state was entered.
    pub closed spec fn tag(&self) -> WorldTag {
        self.tag
    }

    /// Position of the entered state in the tag's stack.
    pub closed spec fn idx(&self) -> usize {
        self.idx
    }
}

/// Tags data
pub struct WorldTagsData {
    no_dep: HoleyStack<WorldTagState>,
    no_run: HoleyStack<WorldTagState>,
    unloaded: HoleyStack<WorldTagState>,
}

/// Whether a tag stack's top state says the tag is in force.
pub open spec fn state_enabled(state: Option<WorldTagState>) -> bool {
    state == Some(WorldTagState::Enabled)
}

impl WorldTagsData {
    /// The state stack of `tag`.
    pub closed spec fn stack(&self, tag: WorldTag) -> Seq<Option<WorldTagState>> {
        match tag {
            WorldTag::NoDep => self.no_dep@,
            WorldTag::NoRun => self.no_run@,
            WorldTag::Unloaded => self.unloaded@,
        }
    }

    pub closed spec fn wf(&self) -> bool {
        &&& self.no_dep.wf()
        &&& self.no_run.wf()
        &&& self.unloaded.wf()
    }

    /// The state currently on top for `tag`.
    pub open spec fn state(&self, tag: WorldTag) -> Option<WorldTagState> {
        top_of(self.stack(tag))
    }

    /// No tag's stack in well-formed tags data has a hole at the top.
    pub proof fn lemma_wf_stacks(&self)
        requires
            self.wf(),
        ensures
            forall|t: WorldTag| #[trigger] no_top_hole(self.stack(t)),
    {
        self.no_dep.lemma_wf_no_top_hole();
        self.no_run.lemma_wf_no_top_hole();
        self.unloaded.lemma_wf_no_top_hole();
        assert forall|t: WorldTag| #[trigger] no_top_hole(self.stack(t)) by {
            match t {
                WorldTag::NoDep => {},
                WorldTag::NoRun => {},
                WorldTag::Unloaded => {},
            }
        }
    }

    /// Creates tags data with no states entered.
    pub fn new() -> (res: Self)
        ensures
            res.wf(),
            forall|t: WorldTag| #[trigger] res.stack(t) == Seq::<Option<WorldTagState>>::empty(),
    {
        WorldTagsData { no_dep: HoleyStack::new(), no_run: HoleyStack::new(), unloaded: HoleyStack::new() }
    }

    /// Returns a tag's state, if any
    pub fn get(&self, tag: WorldTag) -> (res: Option<WorldTagState>)
        requires
            self.wf(),
        ensures
            res == self.state(tag),
    {
        let top = match tag {
            WorldTag::NoDep => self.no_dep.top(),
            WorldTag::NoRun => self.no_run.top(),
            WorldTag::Unloaded => self.unloaded.top(),
        };
        match top {
            Some(s) => Some(*s),
            None => None,
        }
    }

    /// Number of slots (entered states and holes) in the tag's stack.
    pub fn stack_len(&self, tag: WorldTag) -> (res: usize)
        ensures
            res == self.stack(tag).len(),
    {
        match tag {
            WorldTag::NoDep => self.no_dep.len(),
            WorldTag::NoRun => self.no_run.len(),
            WorldTag::Unloaded => self.unloaded.len(),
        }
    }

    /// Pushes a tag state onto the tag's stack.
    pub fn push(&mut self, tag: WorldTag, state: WorldTagState) -> (guard: WorldTagGuard)
        requires
            old(self).wf(),
            old(self).stack(tag).len() < usize::MAX,
        ensures
            final(self).wf(),
            guard.tag() == tag,
            guard.idx() == old(self).stack(tag).len(),
            final(self).stack(tag) == old(self).stack(tag).push(Some(state)),
            forall|t: WorldTag| t != tag ==> #[trigger] final(self).stack(t) == old(self).stack(t),
    {
        let idx = match tag {
            WorldTag::NoDep => self.no_dep.push(state),
            WorldTag::NoRun => self.no_run.push(state),
            WorldTag::Unloaded => self.unloaded.push(state),
        };
        WorldTagGuard { tag, idx }
    }

    /// Pops a tag state, leaving it.
    fn pop(&mut self, tag: WorldTag, idx: usize)
        requires
            old(self).wf(),
        ensures
            final(self).wf(),
            final(self).stack(tag) == take_at(old(self).stack(tag), idx as int).1,
            forall|t: WorldTag| t != tag ==> #[trigger] final(self).stack(t) == old(self).stack(t),
    {
        match tag {
            WorldTag::NoDep => { self.no_dep.pop(idx); },
            WorldTag::NoRun => { self.no_run.pop(idx); },
            WorldTag::Unloaded => { self.unloaded.pop(idx); },
        }
    }

    /// Leaves the state entered with `guard`.
    pub fn release(&mut self, guard: WorldTagGuard)
        requires
            old(self).wf(),
        ensures
            final(self).wf(),
            final(self).stack(guard.tag()) == take_at(old(self).stack(guard.tag()), guard.idx() as int).1,
            forall|t: WorldTag| t != guard.tag() ==> #[trigger] final(self).stack(t) == old(self).stack(t),
    {
        self.pop(guard.tag, guard.idx);
    }

    /// Returns if a tag is present and enabled
    pub fn has_tag(&self, tag: WorldTag) -> (res: bool)
        requires
            self.wf(),
        ensures
            res == state_enabled(self.state(tag)),
    {
        match self.get(tag) {
            Some(WorldTagState::Enabled) => true,
            _ => false,
        }
    }

    /// Adds a tag until the guard is released.
    pub fn add_tag(&mut self, tag: WorldTag) -> (guard: WorldTagGuard)
        requires
            old(self).wf(),
            old(self).stack(tag).len() < usize::MAX,
        ensures
            final(self).wf(),
            guard.tag() == tag,
            guard.idx() == old(self).stack(tag).len(),
            final(self).stack(tag) == old(self).stack(tag).push(Some(WorldTagState::Enabled)),
            forall|t: WorldTag| t != tag ==> #[trigger] final(self).stack(t) == old(self).stack(t),
    {
        self.push(tag, WorldTagState::Enabled)
    }

    /// Removes a tag until the guard is released.
    pub fn remove_tag(&mut self, tag: WorldTag) -> (guard: WorldTagGuard)
        requires
            old(self).wf(),
            old(self).stack(tag).len() < usize::MAX,
        ensures
            final(self).wf(),
            guard.tag() == tag,
            guard.idx() == old(self).stack(tag).len(),
            final(self).stack(tag) == old(self).stack(tag).push(Some(WorldTagState::Disabled)),
            forall|t: WorldTag| t != tag ==> #[trigger] final(self).stack(t) == old(self).stack(t),
    {
        self.push(tag, WorldTagState::Disabled)
    }
}

} // verus!
