//! Value store
//!
//! Values are kept by key, each key with a stack of values: the value seen
//! for a key is the last one pushed that is still there. A push returns a
//! handle, through which that value is read or taken out again.

use vstd::prelude::*;
use std::collections::HashMap;
use crate::holey_stack::{HoleyStack, top_of, take_at, no_top_hole};

verus! {

broadcast use vstd::std_specs::hash::group_hash_axioms;

/// Value store
pub struct ValueStore<V> {
    values: HashMap<u64, HoleyStack<V>>,
}

/// A handle to a store value: its key and its place in the key's stack.
#[derive(Debug)]
pub struct Handle {
    key: u64,
    idx: usize,
}

/// An opaque handle to a store value.
#[derive(Debug)]
pub struct OpaqueHandle {
    type_id: u64,
    idx: usize,
}

/// The stack of `key` in `stacks` (empty when there is none).
pub open spec fn stack_of<V>(stacks: Map<u64, Seq<Option<V>>>, key: u64) -> Seq<Option<V>> {
    if stacks.contains_key(key) {
        stacks[key]
    } else {
        Seq::empty()
    }
}

/// Whether `stacks` still holds the value at `idx` of `key`'s stack.
pub open spec fn holds<V>(stacks: Map<u64, Seq<Option<V>>>, key: u64, idx: int) -> bool {
    0 <= idx < stack_of(stacks, key).len() && stack_of(stacks, key)[idx] is Some
}

impl Handle {
    pub closed spec fn key_spec(&self) -> u64 {
        self.key
    }

    pub closed spec fn idx_spec(&self) -> usize {
        self.idx
    }

    /// Key of the value
    pub fn key(&self) -> (res: u64)
        ensures
            res == self.key_spec(),
    {
        self.key
    }

    /// Place of the value in its key's stack
    pub fn idx(&self) -> (res: usize)
        ensures
            res == self.idx_spec(),
    {
        self.idx
    }

    /// Converts this handle to an opaque handle
    pub fn into_opaque(self) -> (res: OpaqueHandle)
        ensures
            res.type_id_spec() == self.key_spec(),
            res.idx_spec() == self.idx_spec(),
    {
        OpaqueHandle { type_id: self.key, idx: self.idx }
    }

    /// Lets go of the handle, leaving its value in the store for good.
    pub fn forget(self) {
    }

    /// Gets the value from this handle
    pub fn get<V: Copy>(&self, store: &ValueStore<V>) -> (res: V)
        requires
            store.wf(),
            holds(store.stacks(), self.key_spec(), self.idx_spec() as int),
        ensures
            Some(res) == stack_of(store.stacks(), self.key_spec())[self.idx_spec() as int],
    {
        *self.with(store)
    }

    /// Uses the value from this handle
    pub fn with<'a, V>(&self, store: &'a ValueStore<V>) -> (res: &'a V)
        requires
            store.wf(),
            holds(store.stacks(), self.key_spec(), self.idx_spec() as int),
        ensures
            Some(*res) == stack_of(store.stacks(), self.key_spec())[self.idx_spec() as int],
    {
        store.with_idx(self.idx, self.key)
    }

    /// Takes the value in this handle
    pub fn take<V>(self, store: &mut ValueStore<V>) -> (res: V)
        requires
            old(store).wf(),
            holds(old(store).stacks(), self.key_spec(), self.idx_spec() as int),
        ensures
            final(store).wf(),
            (Some(res), stack_of(final(store).stacks(), self.key_spec()))
                == take_at(stack_of(old(store).stacks(), self.key_spec()), self.idx_spec() as int),
            final(store).stacks() == old(store).stacks().insert(self.key_spec(), stack_of(final(store).stacks(), self.key_spec())),
    {
        store.take_idx(self.idx, self.key)
    }
}

impl OpaqueHandle {
    pub closed spec fn type_id_spec(&self) -> u64 {
        self.type_id
    }

    pub closed spec fn idx_spec(&self) -> usize {
        self.idx
    }

    /// Key of the value
    pub fn type_id(&self) -> (res: u64)
        ensures
            res == self.type_id_spec(),
    {
        self.type_id
    }

    /// Place of the value in its key's stack
    pub fn idx(&self) -> (res: usize)
        ensures
            res == self.idx_spec(),
    {
        self.idx
    }

    /// Uses the value from this handle
    pub fn with<'a, V>(&self, store: &'a ValueStore<V>) -> (res: &'a V)
        requires
            store.wf(),
            holds(store.stacks(), self.type_id_spec(), self.idx_spec() as int),
        ensures
            Some(*res) == stack_of(store.stacks(), self.type_id_spec())[self.idx_spec() as int],
    {
        store.with_idx(self.idx, self.type_id)
    }

    /// Takes the value in this handle
    pub fn take<V>(self, store: &mut ValueStore<V>) -> (res: V)
        requires
            old(store).wf(),
            holds(old(store).stacks(), self.type_id_spec(), self.idx_spec() as int),
        ensures
            final(store).wf(),
            (Some(res), stack_of(final(store).stacks(), self.type_id_spec()))
                == take_at(stack_of(old(store).stacks(), self.type_id_spec()), self.idx_spec() as int),
            final(store).stacks() == old(store).stacks().insert(self.type_id_spec(), stack_of(final(store).stacks(), self.type_id_spec())),
    {
        store.take_idx(self.idx, self.type_id)
    }
}

impl<V> ValueStore<V> {
    /// The stack of values of each key.
    pub closed spec fn stacks(&self) -> Map<u64, Seq<Option<V>>> {
        self.values@.map_values(|s: HoleyStack<V>| s@)
    }

    /// The value currently seen for `key`.
    pub open spec fn current(&self, key: u64) -> Option<V> {
        top_of(stack_of(self.stacks(), key))
    }

    pub closed spec fn wf(&self) -> bool {
        forall|k: u64| #[trigger] self.values@.contains_key(k) ==> self.values@[k].wf()
    }

    /// No stack of a well-formed store has a hole at the top.
    pub proof fn lemma_wf_stacks(&self)
        requires
            self.wf(),
        ensures
            forall|k: u64| #[trigger] no_top_hole(stack_of(self.stacks(), k)),
    {
        assert forall|k: u64| #[trigger] no_top_hole(stack_of(self.stacks(), k)) by {
            if self.values@.contains_key(k) {
                self.values@[k].lemma_wf_no_top_hole();
            }
        }
    }

    /// Creates an empty store
    pub fn new() -> (res: Self)
        ensures
            res.wf(),
            res.stacks() == Map::<u64, Seq<Option<V>>>::empty(),
    {
        let res = ValueStore { values: HashMap::new() };
        assert(res.stacks() =~= Map::<u64, Seq<Option<V>>>::empty());
        res
    }

    /// Sets a value for `key`, for good.
    ///
    /// This is equivalent to `push(key, value).forget()`
    pub fn set(&mut self, key: u64, value: V)
        requires
            old(self).wf(),
            stack_of(old(self).stacks(), key).len() < usize::MAX,
        ensures
            final(self).wf(),
            final(self).stacks() == old(self).stacks().insert(key, stack_of(old(self).stacks(), key).push(Some(value))),
    {
        self.push(key, value).forget();
    }

    /// Pushes a value for `key` to this store
    pub fn push(&mut self, key: u64, value: V) -> (handle: Handle)
        requires
            old(self).wf(),
            stack_of(old(self).stacks(), key).len() < usize::MAX,
        ensures
            final(self).wf(),
            final(self).stacks() == old(self).stacks().insert(key, stack_of(old(self).stacks(), key).push(Some(value))),
            handle.key_spec() == key,
            handle.idx_spec() == stack_of(old(self).stacks(), key).len(),
    {
        let mut stack = match self.values.remove(&key) {
            Some(s) => s,
            None => HoleyStack::new(),
        };
        let idx = stack.push(value);
        self.values.insert(key, stack);
        proof {
            assert(self.stacks() =~= old(self).stacks().insert(key, stack_of(old(self).stacks(), key).push(Some(value))));
        }
        Handle { key, idx }
    }

    /// The stack of `key`, if it has one.
    fn stack(&self, key: u64) -> (res: Option<&HoleyStack<V>>)
        requires
            self.wf(),
        ensures
            res is None ==> !self.stacks().contains_key(key),
            res matches Some(s) ==> self.stacks().contains_key(key) && s@ == self.stacks()[key] && s.wf(),
    {
        self.values.get(&key)
    }

    /// Number of slots (values and holes) in the stack of `key`.
    pub fn stack_len(&self, key: u64) -> (res: usize)
        requires
            self.wf(),
        ensures
            res == stack_of(self.stacks(), key).len(),
    {
        match self.stack(key) {
            Some(s) => s.len(),
            None => 0,
        }
    }

    /// Whether the value at `idx` of `key`'s stack is still there.
    pub fn has_idx(&self, idx: usize, key: u64) -> (res: bool)
        requires
            self.wf(),
        ensures
            res == holds(self.stacks(), key, idx as int),
    {
        match self.stack(key) {
            Some(s) => s.get(idx).is_some(),
            None => false,
        }
    }

    /// Uses the value currently seen for `key`, if any.
    pub fn try_with(&self, key: u64) -> (res: Option<&V>)
        requires
            self.wf(),
        ensures
            res matches Some(v) ==> self.current(key) == Some(*v),
            res is None ==> self.current(key) is None,
    {
        match self.stack(key) {
            Some(s) => s.top(),
            None => None,
        }
    }

    /// Uses the value currently seen for `key`, if any, through `f`.
    pub fn with<F, O>(&self, key: u64, f: F) -> (res: Option<O>)
        where F: FnOnce(&V) -> O
        requires
            self.wf(),
            forall|v: &V| #[trigger] f.requires((v,)),
        ensures
            res is None <==> self.current(key) is None,
            res matches Some(o) ==> f.ensures((&self.current(key).unwrap(),), o),
    {
        match self.try_with(key) {
            Some(v) => Some(f(v)),
            None => None,
        }
    }

    /// Uses the value currently seen for `key`, expecting one.
    pub fn with_expect<F, O>(&self, key: u64, f: F) -> (res: O)
        where F: FnOnce(&V) -> O
        requires
            self.wf(),
            self.current(key) is Some,
            forall|v: &V| #[trigger] f.requires((v,)),
        ensures
            f.ensures((&self.current(key).unwrap(),), res),
    {
        match self.try_with(key) {
            Some(v) => f(v),
            None => {
                assert(false);
                vstd::pervasive::unreached()
            },
        }
    }

    /// Gets a copy of the value currently seen for `key`, if any.
    pub fn try_get(&self, key: u64) -> (res: Option<V>)
        where V: Copy
        requires
            self.wf(),
        ensures
            res == self.current(key),
    {
        match self.try_with(key) {
            Some(v) => Some(*v),
            None => None,
        }
    }

    /// Gets a copy of the value currently seen for `key`, expecting one.
    pub fn get(&self, key: u64) -> (res: V)
        where V: Copy
        requires
            self.wf(),
            self.current(key) is Some,
        ensures
            Some(res) == self.current(key),
    {
        match self.try_with(key) {
            Some(v) => *v,
            None => {
                assert(false);
                vstd::pervasive::unreached()
            },
        }
    }

    /// The value at `idx` of `key`'s stack, which must still be there.
    pub fn with_idx(&self, idx: usize, key: u64) -> (res: &V)
        requires
            self.wf(),
            holds(self.stacks(), key, idx as int),
        ensures
            Some(*res) == stack_of(self.stacks(), key)[idx as int],
    {
        match self.stack(key) {
            Some(s) => match s.get(idx) {
                Some(v) => v,
                None => {
                    assert(false);
                    vstd::pervasive::unreached()
                },
            },
            None => {
                assert(false);
                vstd::pervasive::unreached()
            },
        }
    }

    /// Takes the value at `idx` of `key`'s stack out, which must still be there.
    pub fn take_idx(&mut self, idx: usize, key: u64) -> (res: V)
        requires
            old(self).wf(),
            holds(old(self).stacks(), key, idx as int),
        ensures
            final(self).wf(),
            (Some(res), stack_of(final(self).stacks(), key)) == take_at(stack_of(old(self).stacks(), key), idx as int),
            final(self).stacks() == old(self).stacks().insert(key, stack_of(final(self).stacks(), key)),
    {
        let mut stack = match self.values.remove(&key) {
            Some(s) => s,
            None => {
                assert(false);
                HoleyStack::new()
            },
        };
        let res = stack.pop(idx);
        self.values.insert(key, stack);
        proof {
            assert(self.stacks() =~= old(self).stacks().insert(key, stack_of(self.stacks(), key)));
        }
        match res {
            Some(v) => v,
            None => {
                assert(false);
                vstd::pervasive::unreached()
            },
        }
    }
}

} // verus!
