//! Signals of an optional value, seen through a default value.

use vstd::prelude::*;
use crate::signal::{SignalReplace, SignalSet};

verus! {

/// Wrapper for a `Signal<Option<T>>` with a default value
#[derive(Clone, Debug)]
pub struct WithDefault<S, T> {
    /// Inner signal
    inner: S,
    /// Default
    default: T,
}

/// The value of `value`, or `default` where there is none.
pub open spec fn or_default<T>(value: Option<T>, default: T) -> T {
    match value {
        Some(v) => v,
        None => default,
    }
}

impl<S, T> WithDefault<S, T> {
    /// The wrapped signal.
    pub closed spec fn inner_spec(&self) -> S {
        self.inner
    }

    /// The default value.
    pub closed spec fn default_spec(&self) -> T {
        self.default
    }

    /// Wraps a signal with a default value
    pub fn new(inner: S, default: T) -> (res: Self)
        ensures
            res.inner_spec() == inner,
            res.default_spec() == default,
    {
        Self { inner, default }
    }

    /// The wrapped signal
    pub fn inner(&self) -> (res: &S)
        ensures
            *res == self.inner_spec(),
    {
        &self.inner
    }

    /// The default value
    pub fn default_value(&self) -> (res: &T)
        ensures
            *res == self.default_spec(),
    {
        &self.default
    }

    /// The value seen through the default: the inner value where there is
    /// one, the default otherwise.
    pub fn resolve<'a>(&'a self, value: Option<&'a T>) -> (res: &'a T)
        ensures
            *res == (match value {
                Some(v) => *v,
                None => self.default_spec(),
            }),
    {
        match value {
            Some(v) => v,
            None => &self.default,
        }
    }

    /// Fills the default into an inner value that is missing, before it is
    /// updated through the default.
    pub fn fill(&self, value: &mut Option<T>)
        where
            T: Copy,
        ensures
            *final(value) == Some(match *old(value) {
                Some(v) => v,
                None => self.default_spec(),
            }),
    {
        if value.is_none() {
            *value = Some(self.default);
        }
    }

    /// The previous value handed back by a replace: the inner value that was
    /// replaced, or the default where there was none.
    pub fn replaced(&self, prev: Option<T>) -> (res: T)
        where
            T: Copy,
        ensures
            res == (match prev {
                Some(v) => v,
                None => self.default_spec(),
            }),
    {
        match prev {
            Some(v) => v,
            None => self.default,
        }
    }
}

impl<S, T> SignalSet<T> for WithDefault<S, T> where S: SignalSet<Option<T>> {
    /// Setting a value writes it, as `Some`, to the inner signal.
    open spec fn written(&self, new_value: T) -> bool {
        SignalSet::<Option<T>>::written(&self.inner_spec(), Some(new_value))
    }

    fn set(&self, new_value: T) {
        self.inner.set(Some(new_value));
    }

    fn set_raw(&self, new_value: T) {
        self.inner.set_raw(Some(new_value));
    }
}

impl<S, T> SignalSet<Option<T>> for WithDefault<S, T> where S: SignalSet<Option<T>> {
    /// Setting an optional value writes it, as it is, to the inner signal.
    open spec fn written(&self, new_value: Option<T>) -> bool {
        SignalSet::<Option<T>>::written(&self.inner_spec(), new_value)
    }

    fn set(&self, new_value: Option<T>) {
        self.inner.set(new_value);
    }

    fn set_raw(&self, new_value: Option<T>) {
        self.inner.set_raw(new_value);
    }
}

impl<S, T> SignalReplace<T> for WithDefault<S, T> where S: SignalReplace<Option<T>, Value = Option<T>>, T: Copy {
    type Value = T;

    /// What the inner signal hands back for `Some(new_value)`, seen through
    /// the default.
    open spec fn replaced_by(&self, new_value: T, prev: T) -> bool {
        exists|inner_prev: Option<T>| #[trigger] self.inner_spec().replaced_by(Some(new_value), inner_prev)
            && prev == or_default(inner_prev, self.default_spec())
    }

    fn replace(&self, new_value: T) -> (res: T)
        ensures
            self.replaced_by(new_value, res),
    {
        let prev = self.inner.replace(Some(new_value));
        let res = self.replaced(prev);
        assert(self.inner_spec().replaced_by(Some(new_value), prev));
        res
    }

    fn replace_raw(&self, new_value: T) -> (res: T)
        ensures
            self.replaced_by(new_value, res),
    {
        let prev = self.inner.replace_raw(Some(new_value));
        let res = self.replaced(prev);
        assert(self.inner_spec().replaced_by(Some(new_value), prev));
        res
    }
}

impl<S, T> SignalReplace<Option<T>> for WithDefault<S, T> where S: SignalReplace<Option<T>, Value = Option<T>>, T: Copy {
    type Value = T;

    /// What the inner signal hands back for `new_value`, seen through the
    /// default.
    open spec fn replaced_by(&self, new_value: Option<T>, prev: T) -> bool {
        exists|inner_prev: Option<T>| #[trigger] self.inner_spec().replaced_by(new_value, inner_prev)
            && prev == or_default(inner_prev, self.default_spec())
    }

    fn replace(&self, new_value: Option<T>) -> (res: T)
        ensures
            self.replaced_by(new_value, res),
    {
        let prev = self.inner.replace(new_value);
        let res = self.replaced(prev);
        assert(self.inner_spec().replaced_by(new_value, prev));
        res
    }

    fn replace_raw(&self, new_value: Option<T>) -> (res: T)
        ensures
            self.replaced_by(new_value, res),
    {
        let prev = self.inner.replace_raw(new_value);
        let res = self.replaced(prev);
        assert(self.inner_spec().replaced_by(new_value, prev));
        res
    }
}

/// Extension trait to add a default value to a signal
pub trait SignalWithDefault: Sized {
    /// Wraps this signal with a default value
    fn with_default<T>(self, default: T) -> WithDefault<Self, T>;
}

impl<S> SignalWithDefault for S {
    fn with_default<T>(self, default: T) -> (res: WithDefault<S, T>)
        ensures
            res.inner_spec() == self,
            res.default_spec() == default,
    {
        WithDefault::new(self, default)
    }
}

/// Setting a signal with a default writes to its inner signal exactly what
/// was set: a plain value wrapped in `Some`, an optional value as it is (so
/// setting `None` clears the inner value, and the default shows again).
pub proof fn law_set_writes_through<S, T>(s: WithDefault<S, T>, value: T, opt: Option<T>)
    where
        S: SignalSet<Option<T>>,
    ensures
        SignalSet::<T>::written(&s, value) <==> SignalSet::<Option<T>>::written(&s.inner_spec(), Some(value)),
        SignalSet::<Option<T>>::written(&s, opt) <==> SignalSet::<Option<T>>::written(&s.inner_spec(), opt),
{
}

/// Replacing the value of a signal with a default hands back what the
/// inner signal handed back for the same new value: the value it held, or
/// the default where it held none.
pub proof fn law_replace_sees_default<S, T>(s: WithDefault<S, T>, new_value: T, res: T)
    where
        S: SignalReplace<Option<T>, Value = Option<T>>,
        T: Copy,
    requires
        SignalReplace::<T>::replaced_by(&s, new_value, res),
    ensures
        exists|inner_prev: Option<T>| #[trigger] s.inner_spec().replaced_by(Some(new_value), inner_prev) && (match inner_prev {
            Some(v) => res == v,
            None => res == s.default_spec(),
        }),
{
    let p = choose|inner_prev: Option<T>| #[trigger] s.inner_spec().replaced_by(Some(new_value), inner_prev)
        && res == or_default(inner_prev, s.default_spec());
    assert(s.inner_spec().replaced_by(Some(new_value), p));
}

} // verus!
