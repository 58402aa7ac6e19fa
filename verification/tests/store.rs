use dynatos::store::ValueStore;

/// Key under which the tests keep their `usize` values.
const USIZE: u64 = 0;

#[test]
fn simple() {
    let mut store = ValueStore::new();

    let handle = store.push(USIZE, 5usize);

    assert_eq!(store.try_get(USIZE), Some(5));
    assert_eq!(handle.take(&mut store), 5);
    assert_eq!(store.try_get(USIZE), None);
}

#[test]
fn stacked() {
    let mut store = ValueStore::new();

    let handle1 = store.push(USIZE, 5usize);
    let handle2 = store.push(USIZE, 4usize);

    assert_eq!(store.try_get(USIZE), Some(4));
    assert_eq!(handle2.take(&mut store), 4);
    assert_eq!(store.try_get(USIZE), Some(5));
    assert_eq!(handle1.take(&mut store), 5);
    assert_eq!(store.try_get(USIZE), None);
}

#[test]
fn stacked_swapped() {
    let mut store = ValueStore::new();

    let handle1 = store.push(USIZE, 5usize);
    let handle2 = store.push(USIZE, 4usize);

    assert_eq!(store.try_get(USIZE), Some(4));
    assert_eq!(handle1.take(&mut store), 5);
    assert_eq!(store.try_get(USIZE), Some(4));
    assert_eq!(handle2.take(&mut store), 4);
    assert_eq!(store.try_get(USIZE), None);
}

#[test]
fn stacked_triple() {
    let mut store = ValueStore::new();

    let handle1 = store.push(USIZE, 5usize);
    let handle2 = store.push(USIZE, 4usize);
    let handle3 = store.push(USIZE, 3usize);

    assert_eq!(store.try_get(USIZE), Some(3));
    assert_eq!(handle2.take(&mut store), 4);
    assert_eq!(handle3.take(&mut store), 3);
    assert_eq!(store.try_get(USIZE), Some(5));
    assert_eq!(handle1.take(&mut store), 5);
    assert_eq!(store.try_get(USIZE), None);
}

#[test]
fn opaque() {
    let mut store = ValueStore::new();

    let handle1 = store.push(USIZE, 5usize).into_opaque();
    let handle2 = store.push(USIZE, 4usize).into_opaque();

    assert_eq!(store.try_get(USIZE), Some(4));
    assert_eq!(handle2.take(&mut store), 4);
    assert_eq!(store.try_get(USIZE), Some(5));
    assert_eq!(handle1.take(&mut store), 5);
    assert_eq!(store.try_get(USIZE), None);
}

#[test]
fn stress() {
    let mut store = ValueStore::new();

    let handles_len = 100;
    let mut handles = Vec::new();
    for idx in 0..handles_len {
        handles.push(store.push(USIZE, idx));
    }

    for value in (0..handles_len).rev() {
        assert_eq!(store.try_get(USIZE), Some(value));

        let handle = handles.pop().expect("Should have handle");
        assert_eq!(handle.get(&store), value);
        assert_eq!(handle.take(&mut store), value);
    }
    assert_eq!(store.try_get(USIZE), None);
}

#[test]
fn keys_are_separate() {
    let mut store = ValueStore::new();

    let a = store.push(1, 10u32);
    let _b = store.push(2, 20u32);
    assert_eq!(store.get(1), 10);
    assert_eq!(store.get(2), 20);
    assert_eq!(a.take(&mut store), 10);
    assert_eq!(store.try_get(1), None);
    assert_eq!(store.get(2), 20);
}

#[test]
fn set_stays() {
    let mut store = ValueStore::new();

    store.set(USIZE, 7usize);
    let handle = store.push(USIZE, 8usize);
    assert_eq!(store.get(USIZE), 8);
    assert_eq!(handle.take(&mut store), 8);
    assert_eq!(store.get(USIZE), 7);
    assert_eq!(store.with(USIZE, |v| *v + 1), Some(8));
    assert_eq!(store.with_expect(USIZE, |v| *v * 2), 14);
    assert_eq!(store.try_with(USIZE), Some(&7));
}
