//! Signal operations: the vocabulary shared by every kind of signal.
//!
//! A signal type implements the operations it supports. The `*DefaultImpl`
//! marker traits record which of them a signal type builds out of the more
//! basic ones (`with` from `borrow`, `update` from `borrow_mut`, `set` from
//! `update`, `get` and `get_cloned` from `with`).

use vstd::prelude::*;

verus! {

/// Signal borrow
pub trait SignalBorrow {
    /// Reference type
    type Ref<'a> where Self: 'a;

    /// Borrows the signal value
    fn borrow(&self) -> Self::Ref<'_>;

    /// Borrows the signal value without gathering dependencies
    fn borrow_no_dep(&self) -> Self::Ref<'_>;
}

/// Signal borrow mutably
pub trait SignalBorrowMut {
    /// Mutable reference type
    type RefMut<'a> where Self: 'a;

    /// Borrows the signal value mutably
    fn borrow_mut(&self) -> Self::RefMut<'_>;

    /// Borrows the signal value mutably without updating dependencies
    fn borrow_mut_no_run(&self) -> Self::RefMut<'_>;
}

/// Marker for signals whose `SignalWith` comes from their `SignalBorrow`.
pub trait SignalWithDefaultImpl {}

/// Signal with
pub trait SignalWith {
    /// Value type
    type Value<'a>;

    /// Uses the signal value
    fn with<F, O>(&self, f: F) -> O
    where
        F: for<'a> FnOnce(Self::Value<'a>) -> O,
    ;

    /// Uses the signal value without gathering dependencies
    fn with_raw<F, O>(&self, f: F) -> O
    where
        F: for<'a> FnOnce(Self::Value<'a>) -> O,
    ;
}

/// Marker for signals whose `SignalUpdate` comes from their `SignalBorrowMut`.
pub trait SignalUpdateDefaultImpl {}

/// Signal update
pub trait SignalUpdate {
    /// Value type
    type Value<'a>;

    /// Updates the signal value
    fn update<F, O>(&self, f: F) -> O
    where
        F: for<'a> FnOnce(Self::Value<'a>) -> O,
    ;

    /// Updates the signal value without updating dependencies
    fn update_raw<F, O>(&self, f: F) -> O
    where
        F: for<'a> FnOnce(Self::Value<'a>) -> O,
    ;
}

/// Marker for signals whose `SignalGet` comes from their `SignalWith`.
pub trait SignalGetDefaultImpl {}

/// Types which may be copied by `SignalGet`
pub trait SignalGetCopy: Sized {
    /// The copied value
    type Value;

    /// Copies the value
    fn copy_value(self) -> Self::Value;
}

impl<'b, T: Copy> SignalGetCopy for &'b T {
    type Value = T;

    fn copy_value(self) -> (res: T)
        ensures
            res == *self,
    {
        *self
    }
}

impl<'b, T: Copy> SignalGetCopy for Option<&'b T> {
    type Value = Option<T>;

    fn copy_value(self) -> (res: Option<T>)
        ensures
            res == (match self {
                Some(v) => Some(*v),
                None => None,
            }),
    {
        match self {
            Some(v) => Some(*v),
            None => None,
        }
    }
}

/// Signal get
pub trait SignalGet {
    /// Value type
    type Value;

    /// Gets the signal value, by copying it.
    fn get(&self) -> Self::Value;
}

/// Marker for signals whose `SignalGetCloned` comes from their `SignalWith`.
pub trait SignalGetClonedDefaultImpl {}

/// Types which may be cloned by `SignalGetCloned`
pub trait SignalGetClone: Sized {
    /// The cloned value
    type Value;

    /// Clones the value
    fn clone_value(self) -> Self::Value;
}

impl<'b, T: Clone> SignalGetClone for &'b T {
    type Value = T;

    fn clone_value(self) -> (res: T)
        ensures
            cloned(*self, res),
    {
        self.clone()
    }
}

impl<'b, T: Clone> SignalGetClone for Option<&'b T> {
    type Value = Option<T>;

    fn clone_value(self) -> (res: Option<T>)
        ensures
            self is None ==> res is None,
            self matches Some(v) ==> (res matches Some(c) && cloned(*v, c)),
    {
        match self {
            Some(v) => Some(v.clone()),
            None => None,
        }
    }
}

/// Signal cloned
pub trait SignalGetCloned {
    /// Value type
    type Value;

    /// Gets the signal value, by cloning it.
    fn get_cloned(&self) -> Self::Value;

    /// Gets the signal value, by cloning it without adding dependencies.
    fn get_cloned_raw(&self) -> Self::Value;
}

/// Signal replace
pub trait SignalReplace<T> {
    /// The value handed back
    type Value;

    /// Whether `prev` is a value that replacing the signal's value with
    /// `new_value` can hand back: the value the signal held before. A signal
    /// type that states nothing of it keeps this default, which admits any
    /// value.
    closed spec fn replaced_by(&self, new_value: T, prev: Self::Value) -> bool {
        true
    }

    /// Replaces the signal value, returning the previous value
    fn replace(&self, new_value: T) -> (prev: Self::Value)
        ensures
            self.replaced_by(new_value, prev),
    ;

    /// Replaces the signal value, returning the previous value without updating dependencies.
    fn replace_raw(&self, new_value: T) -> (prev: Self::Value)
        ensures
            self.replaced_by(new_value, prev),
    ;
}

/// Types which may be set by `SignalSet`
pub trait SignalSetWith<T>: Sized {
    /// Sets the value
    fn set_value(self, new_value: T);
}

impl<'b, T> SignalSetWith<T> for &'b mut T {
    fn set_value(self, new_value: T)
        ensures
            *final(self) == new_value,
    {
        *self = new_value;
    }
}

impl<'b, T> SignalSetWith<T> for &'b mut Option<T> {
    fn set_value(self, new_value: T)
        ensures
            *final(self) == Some(new_value),
    {
        *self = Some(new_value);
    }
}

/// Marker for signals whose `SignalSet` comes from their `SignalUpdate`.
pub trait SignalSetDefaultImpl {}

/// Signal set
pub trait SignalSet<Value> {
    /// Whether `new_value` is a value that setting the signal wrote: the
    /// value the signal holds once set. A signal type that states nothing of
    /// it keeps this default, which admits any value.
    closed spec fn written(&self, new_value: Value) -> bool {
        true
    }

    /// Sets the signal value
    fn set(&self, new_value: Value)
        ensures
            self.written(new_value),
    ;

    /// Sets the signal value without updating dependencies
    fn set_raw(&self, new_value: Value)
        ensures
            self.written(new_value),
    ;
}

} // verus!
