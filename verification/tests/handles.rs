use ffi_marshal::{into_raw_ptr, reclaim, HandleTable, RawHandle};

#[derive(Debug, PartialEq)]
struct Credentials {
    user: String,
    secret: Vec<u8>,
}

#[test]
fn new_table_owns_nothing() {
    let table: HandleTable<u32> = HandleTable::new();
    assert_eq!(table.outstanding(), 0);
    assert!(!table.is_live(RawHandle { index: 0, generation: 0 }));
    assert!(!table.is_live(RawHandle { index: 0, generation: 1 }));
}

#[test]
fn lift_then_reclaim_gives_the_value_back() {
    let mut table: HandleTable<u32> = HandleTable::new();
    let handle = into_raw_ptr(&mut table, 42);
    assert!(table.is_live(handle));
    assert_eq!(table.outstanding(), 1);
    assert_eq!(reclaim(&mut table, handle), Some(42));
    assert_eq!(table.outstanding(), 0);
}

#[test]
fn lift_then_reclaim_works_for_owned_data() {
    let mut strings: HandleTable<String> = HandleTable::new();
    let handle = into_raw_ptr(&mut strings, String::from("ticket"));
    assert_eq!(reclaim(&mut strings, handle), Some(String::from("ticket")));

    let mut records: HandleTable<Credentials> = HandleTable::new();
    let value = Credentials { user: String::from("alice"), secret: vec![1, 2, 3] };
    let handle = into_raw_ptr(&mut records, value);
    assert_eq!(
        reclaim(&mut records, handle),
        Some(Credentials { user: String::from("alice"), secret: vec![1, 2, 3] })
    );
}

#[test]
fn second_reclaim_gives_nothing() {
    let mut table: HandleTable<u32> = HandleTable::new();
    let handle = into_raw_ptr(&mut table, 7);
    assert_eq!(reclaim(&mut table, handle), Some(7));
    assert_eq!(reclaim(&mut table, handle), None);
    assert!(!table.is_live(handle));
    assert_eq!(table.outstanding(), 0);
}

#[test]
fn handles_of_live_values_differ() {
    let mut table: HandleTable<u32> = HandleTable::new();
    let a = into_raw_ptr(&mut table, 1);
    let b = into_raw_ptr(&mut table, 2);
    let c = into_raw_ptr(&mut table, 3);
    assert_ne!(a, b);
    assert_ne!(a, c);
    assert_ne!(b, c);
    assert_eq!(table.outstanding(), 3);
    assert_eq!(reclaim(&mut table, b), Some(2));
    assert_eq!(reclaim(&mut table, a), Some(1));
    assert_eq!(reclaim(&mut table, c), Some(3));
}

#[test]
fn stale_handle_does_not_reach_the_next_value() {
    let mut table: HandleTable<u32> = HandleTable::new();
    let old = into_raw_ptr(&mut table, 1);
    assert_eq!(reclaim(&mut table, old), Some(1));
    let new = into_raw_ptr(&mut table, 2);
    assert_ne!(old, new);
    assert!(!table.is_live(old));
    assert_eq!(reclaim(&mut table, old), None);
    assert_eq!(table.outstanding(), 1);
    assert_eq!(reclaim(&mut table, new), Some(2));
}

#[test]
fn emptied_slot_is_used_again_under_a_new_generation() {
    let mut table: HandleTable<u32> = HandleTable::new();
    let first = into_raw_ptr(&mut table, 1);
    assert_eq!(first, RawHandle { index: 0, generation: 1 });
    assert_eq!(reclaim(&mut table, first), Some(1));
    let second = into_raw_ptr(&mut table, 2);
    assert_eq!(second, RawHandle { index: 0, generation: 2 });
    let third = into_raw_ptr(&mut table, 3);
    assert_eq!(third, RawHandle { index: 1, generation: 1 });
}

#[test]
fn made_up_handle_gives_nothing() {
    let mut table: HandleTable<u32> = HandleTable::new();
    let handle = into_raw_ptr(&mut table, 9);
    assert_eq!(reclaim(&mut table, RawHandle { index: 5, generation: 1 }), None);
    assert_eq!(reclaim(&mut table, RawHandle { index: 0, generation: 0 }), None);
    assert_eq!(reclaim(&mut table, RawHandle { index: 0, generation: 2 }), None);
    assert_eq!(reclaim(&mut table, RawHandle { index: usize::MAX, generation: u64::MAX }), None);
    assert_eq!(table.outstanding(), 1);
    assert_eq!(reclaim(&mut table, handle), Some(9));
}

#[test]
fn reclaim_leaves_other_values_alone() {
    let mut table: HandleTable<String> = HandleTable::new();
    let a = into_raw_ptr(&mut table, String::from("a"));
    let b = into_raw_ptr(&mut table, String::from("b"));
    assert_eq!(reclaim(&mut table, a), Some(String::from("a")));
    assert!(table.is_live(b));
    let c = into_raw_ptr(&mut table, String::from("c"));
    assert_eq!(reclaim(&mut table, b), Some(String::from("b")));
    assert_eq!(reclaim(&mut table, c), Some(String::from("c")));
    assert_eq!(table.outstanding(), 0);
}

#[test]
fn outstanding_counts_what_was_never_reclaimed() {
    let mut table: HandleTable<usize> = HandleTable::new();
    let mut handles: Vec<RawHandle> = Vec::new();
    for i in 0..100usize {
        handles.push(into_raw_ptr(&mut table, i));
    }
    assert_eq!(table.outstanding(), 100);
    for (i, handle) in handles.iter().enumerate() {
        if i % 2 == 0 {
            assert_eq!(reclaim(&mut table, *handle), Some(i));
        }
    }
    assert_eq!(table.outstanding(), 50);
    for i in 0..50usize {
        let handle = into_raw_ptr(&mut table, 1000 + i);
        assert!(!handles.contains(&handle));
    }
    assert_eq!(table.outstanding(), 100);
}
