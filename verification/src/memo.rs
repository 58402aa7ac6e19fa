//! Memo'd values: a value that is only written, and only announced, when it
//! changes.

use vstd::prelude::*;
use vstd::std_specs::cmp::PartialEqSpec;

verus! {

/// Writes `new_value` into the memo'd `slot` unless it holds an equal value
/// already. Returns whether it was written: only then are the memo's readers
/// run again.
///
/// A slot that holds no value yet is always written.
pub fn write_if_changed<T: PartialEq>(slot: &mut Option<T>, new_value: T) -> (written: bool)
    ensures
        old(slot).is_none() ==> written,
        written ==> *final(slot) == Some(new_value),
        !written ==> *final(slot) == *old(slot),
        T::obeys_eq_spec() ==> (written <==> !(match *old(slot) {
            Some(v) => v.eq_spec(&new_value),
            None => false,
        })),
{
    let same = match slot {
        Some(v) => *v == new_value,
        None => false,
    };
    if !same {
        *slot = Some(new_value);
    }
    !same
}

} // verus!
