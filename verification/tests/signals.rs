use dynatos::async_load::{BorrowAction, LoadState};
use dynatos::ctx::{kind_changed, EffectRunCtx, EnumSplitValueUpdateCtx};
use dynatos::mapped::{output_update, OutputChange};
use dynatos::memo::write_if_changed;
use dynatos::signal::{SignalGetClone, SignalGetCopy, SignalReplace, SignalSet, SignalSetWith};
use dynatos::with_default::{SignalWithDefault, WithDefault};
use futures::future::{AbortHandle, Abortable};
use std::cell::RefCell;

/// A plain signal of an optional value, for the default wrapper to wrap.
struct OptSignal(RefCell<Option<u32>>);

impl SignalSet<Option<u32>> for OptSignal {
    fn set(&self, new_value: Option<u32>) {
        *self.0.borrow_mut() = new_value;
    }

    fn set_raw(&self, new_value: Option<u32>) {
        self.set(new_value);
    }
}

impl SignalReplace<Option<u32>> for OptSignal {
    type Value = Option<u32>;

    fn replace(&self, new_value: Option<u32>) -> Option<u32> {
        self.0.replace(new_value)
    }

    fn replace_raw(&self, new_value: Option<u32>) -> Option<u32> {
        self.replace(new_value)
    }
}

#[test]
fn with_default_sees_default() {
    let signal = OptSignal(RefCell::new(None)).with_default(5);
    assert_eq!(*signal.resolve(signal.inner().0.borrow().as_ref()), 5);
    signal.set(7u32);
    assert_eq!(*signal.inner().0.borrow(), Some(7));
    assert_eq!(*signal.resolve(signal.inner().0.borrow().as_ref()), 7);
    assert_eq!(*signal.default_value(), 5);
}

#[test]
fn with_default_replace() {
    let signal = WithDefault::new(OptSignal(RefCell::new(None)), 5u32);
    assert_eq!(signal.replace(3u32), 5);
    assert_eq!(signal.replace(None::<u32>), 3);
    assert_eq!(signal.replace(9u32), 5);
    signal.set(None::<u32>);
    assert_eq!(*signal.inner().0.borrow(), None);
}

#[test]
fn with_default_fill() {
    let signal = WithDefault::new((), 4u32);
    let mut value = None;
    signal.fill(&mut value);
    assert_eq!(value, Some(4));
    let mut value = Some(6);
    signal.fill(&mut value);
    assert_eq!(value, Some(6));
    assert_eq!(signal.replaced(None), 4);
    assert_eq!(signal.replaced(Some(1)), 1);
}

#[test]
fn copy_and_clone_values() {
    let x = 3u8;
    assert_eq!((&x).copy_value(), 3);
    assert_eq!(Some(&x).copy_value(), Some(3));
    assert_eq!(None::<&u8>.copy_value(), None);
    let s = String::from("v");
    assert_eq!((&s).clone_value(), "v");
    assert_eq!(Some(&s).clone_value(), Some("v".to_owned()));

    let mut y = 1u8;
    (&mut y).set_value(2);
    assert_eq!(y, 2);
    let mut z: Option<u8> = None;
    (&mut z).set_value(4);
    assert_eq!(z, Some(4));
}

#[test]
fn mapped_output_follows_input() {
    // First run: a value makes a new signal, nobody to tell
    let update = output_update::<(), u32, ()>(&None, Ok(5));
    assert!(matches!(update.change, OutputChange::NewSignal(5)));
    assert!(!update.needs_trigger);

    // A value after a value is written into the signal handed out
    let update = output_update::<(), u32, ()>(&Some(Ok(())), Ok(6));
    assert!(matches!(update.change, OutputChange::WriteExisting(6)));
    assert!(!update.needs_trigger);

    // An error replaces the signal and tells the readers
    let update = output_update::<(), u32, u32>(&Some(Ok(())), Err(1));
    assert!(matches!(update.change, OutputChange::Fail(1)));
    assert!(update.needs_trigger);

    // Another error tells them again
    let update = output_update::<(), u32, u32>(&Some(Err(1)), Err(2));
    assert!(matches!(update.change, OutputChange::Fail(2)));
    assert!(update.needs_trigger);

    // A value after an error is a new signal
    let update = output_update::<(), u32, u32>(&Some(Err(2)), Ok(1));
    assert!(matches!(update.change, OutputChange::NewSignal(1)));
    assert!(update.needs_trigger);

    // An error on the first run tells nobody
    let update = output_update::<(), u32, u32>(&None, Err(3));
    assert!(matches!(update.change, OutputChange::Fail(3)));
    assert!(!update.needs_trigger);
}

#[test]
fn memo_writes_only_changes() {
    let mut slot = None;
    assert!(write_if_changed(&mut slot, 1));
    assert_eq!(slot, Some(1));
    assert!(!write_if_changed(&mut slot, 1));
    assert_eq!(slot, Some(1));
    assert!(write_if_changed(&mut slot, 2));
    assert_eq!(slot, Some(2));
}

#[test]
fn enum_split_kind_changes() {
    assert!(kind_changed(&None, &1u8));
    assert!(!kind_changed(&Some(1u8), &1u8));
    assert!(kind_changed(&Some(1u8), &2u8));
}

#[test]
fn contexts() {
    let _ctx = EffectRunCtx::new();
    let ctx = EnumSplitValueUpdateCtx::new(7u32);
    assert_eq!(*ctx.outer_signal(), 7);
}

#[test]
fn async_load_states() {
    let mut state = LoadState::<u32>::new();
    assert!(!state.is_loading());
    assert!(!state.is_loaded());
    assert_eq!(state.borrow_action(), BorrowAction::StartLoading);

    let (handle, registration) = AbortHandle::new_pair();
    let task = Abortable::new(async { 1u32 }, registration);
    assert!(state.start_loading(handle));
    assert!(state.is_loading());
    assert_eq!(state.borrow_action(), BorrowAction::WaitLoading);

    // Starting while a task loads changes nothing
    let (other, other_registration) = AbortHandle::new_pair();
    let other_task = Abortable::new(async { 2u32 }, other_registration);
    assert!(!state.start_loading(other));
    assert!(state.is_loading());
    assert!(!state.is_loaded());
    assert!(!task.is_aborted());
    assert!(!other_task.is_aborted());

    // Stopping aborts the task
    assert!(state.stop_loading());
    assert!(task.is_aborted());
    assert!(!state.is_loading());
    assert!(!state.stop_loading());

    let (handle, _registration) = AbortHandle::new_pair();
    assert!(state.start_loading(handle));
    assert!(state.restart_loading());
    assert!(!state.is_loading());

    state.finish(3);
    assert!(!state.is_loading());
    assert_eq!(state.value(), Some(&3));
    assert_eq!(state.borrow_action(), BorrowAction::Loaded);
    if let Some(v) = state.value_mut() {
        *v = 4;
    }
    assert_eq!(state.value(), Some(&4));
    state.abandon();
    assert_eq!(state.value(), Some(&4));
}
