//! Holey stack
//!
//! A stack whose entries may be removed out of order. Removing an entry
//! leaves a hole behind, and holes at the top of the stack are discarded,
//! so the top of the stack is always the last entry still present.

use vstd::prelude::*;

verus! {

/// Removes every hole at the top of `s`.
pub open spec fn trim_holes<T>(s: Seq<Option<T>>) -> Seq<Option<T>>
    decreases s.len(),
{
    if s.len() == 0 {
        s
    } else if s.last() is None {
        trim_holes(s.drop_last())
    } else {
        s
    }
}

/// Whether the top of `s` holds a value (or `s` is empty).
pub open spec fn no_top_hole<T>(s: Seq<Option<T>>) -> bool {
    s.len() == 0 || s.last() is Some
}

/// Value at the top of a stack without a top hole.
pub open spec fn top_of<T>(s: Seq<Option<T>>) -> Option<T> {
    if s.len() == 0 {
        None
    } else {
        s.last()
    }
}

/// The result of taking the entry at `idx` out of `s`: the taken value and the remaining stack.
pub open spec fn take_at<T>(s: Seq<Option<T>>, idx: int) -> (Option<T>, Seq<Option<T>>) {
    if 0 <= idx < s.len() && s[idx] is Some {
        (s[idx], trim_holes(s.update(idx, None)))
    } else {
        (None, s)
    }
}

pub proof fn lemma_trim_holes_props<T>(s: Seq<Option<T>>)
    ensures
        no_top_hole(trim_holes(s)),
        trim_holes(s).len() <= s.len(),
        trim_holes(s) =~= s.subrange(0, trim_holes(s).len() as int),
        forall|i: int| trim_holes(s).len() <= i < s.len() ==> s[i] is None,
        no_top_hole(s) ==> trim_holes(s) == s,
    decreases s.len(),
{
    if s.len() > 0 && s.last() is None {
        lemma_trim_holes_props(s.drop_last());
        assert forall|i: int| trim_holes(s).len() <= i < s.len() implies s[i] is None by {
            if i < s.len() - 1 {
                assert(s.drop_last()[i] == s[i]);
            }
        }
    }
}

/// Stack with holes.
pub struct HoleyStack<T> {
    items: Vec<Option<T>>,
}

impl<T> View for HoleyStack<T> {
    type V = Seq<Option<T>>;

    closed spec fn view(&self) -> Seq<Option<T>> {
        self.items@
    }
}

impl<T> HoleyStack<T> {
    /// Internal consistency: there is never a hole at the top.
    pub closed spec fn wf(&self) -> bool {
        no_top_hole(self.items@)
    }

    /// A well-formed stack has no hole at the top.
    pub proof fn lemma_wf_no_top_hole(&self)
        requires
            self.wf(),
        ensures
            no_top_hole(self@),
    {
    }

    /// Creates an empty stack.
    pub fn new() -> (res: Self)
        ensures
            res.wf(),
            res@ == Seq::<Option<T>>::empty(),
    {
        HoleyStack { items: Vec::new() }
    }

    /// Number of slots (entries and holes) in the stack.
    pub fn len(&self) -> (res: usize)
        ensures
            res == self@.len(),
    {
        self.items.len()
    }

    /// Pushes a value, returning the index it can later be taken from.
    pub fn push(&mut self, value: T) -> (idx: usize)
        requires
            old(self).wf(),
            old(self)@.len() < usize::MAX,
        ensures
            final(self).wf(),
            idx == old(self)@.len(),
            final(self)@ == old(self)@.push(Some(value)),
    {
        let idx = self.items.len();
        self.items.push(Some(value));
        idx
    }

    /// Returns the value at the top of the stack, if any.
    pub fn top(&self) -> (res: Option<&T>)
        requires
            self.wf(),
        ensures
            res matches Some(v) ==> top_of(self@) == Some(*v),
            res is None ==> top_of(self@) is None,
    {
        let len = self.items.len();
        if len == 0 {
            None
        } else {
            self.items[len - 1].as_ref()
        }
    }

    /// Returns the value at `idx`, if it is still present.
    pub fn get(&self, idx: usize) -> (res: Option<&T>)
        ensures
            res matches Some(v) ==> idx < self@.len() && self@[idx as int] == Some(*v),
            res is None ==> idx >= self@.len() || self@[idx as int] is None,
    {
        if idx < self.items.len() {
            self.items[idx].as_ref()
        } else {
            None
        }
    }

    /// Takes the value at `idx` out of the stack, if it is still present.
    ///
    /// Holes left at the top of the stack are removed.
    pub fn pop(&mut self, idx: usize) -> (res: Option<T>)
        requires
            old(self).wf(),
        ensures
            final(self).wf(),
            (res, final(self)@) == take_at(old(self)@, idx as int),
    {
        if idx >= self.items.len() {
            return None;
        }
        if self.items[idx].is_none() {
            return None;
        }
        let mut slot: Option<T> = None;
        self.items.set_and_swap(idx, &mut slot);
        let ghost updated = self.items@;
        while self.items.len() > 0 && self.items[self.items.len() - 1].is_none()
            invariant
                trim_holes(self.items@) == trim_holes(updated),
            decreases self.items.len(),
        {
            let ghost before = self.items@;
            self.items.pop();
            assert(self.items@ =~= before.drop_last());
        }
        proof {
            lemma_trim_holes_props(self.items@);
        }
        slot
    }
}

} // verus!
