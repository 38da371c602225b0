use nexterm_client::named_blocks::{
    default_schema_version, unix_now, NamedBlockEntry, NamedBlockStore, MAX_NAMED_BLOCKS,
    SCHEMA_VERSION,
};
use std::collections::HashMap;

#[test]
fn empty_name_removes_entry() {
    let mut store = NamedBlockStore::new();
    store.set(42, "build");
    assert_eq!(store.get(42), Some("build"));
    assert!(store.set(42, "   "));
    assert!(store.get(42).is_none());
}

#[test]
fn remove_returns_false_when_absent() {
    let mut store = NamedBlockStore::new();
    assert!(!store.remove(99));
}

#[test]
fn set_trims_whitespace() {
    let mut store = NamedBlockStore::new();
    store.set(1, "  deploy  ");
    assert_eq!(store.get(1), Some("deploy"));
}

#[test]
fn touch_updates_last_used() {
    let mut names = HashMap::new();
    names.insert(
        1u64,
        NamedBlockEntry {
            name: "x".to_string(),
            last_used_unix: 0,
        },
    );
    let mut store = NamedBlockStore::from_map(names);
    store.touch(1);
    let after = store
        .iter()
        .into_iter()
        .find(|(id, _)| *id == 1)
        .map(|(_, e)| e.last_used_unix)
        .unwrap();
    assert!(after > 0, "touch must produce a positive timestamp");
    assert_eq!(store.get(1), Some("x"), "touch keeps the name");
}

#[test]
fn set_existing_with_same_name_returns_false() {
    let mut store = NamedBlockStore::new();
    assert!(store.set(7, "name"));
    assert!(!store.set(7, "name"));
}

#[test]
fn set_then_get_round_trips_in_memory() {
    let mut store = NamedBlockStore::new();
    assert!(store.set(0x0000_0001_0000_0010, "deploy"));
    assert!(store.set(0x0000_0001_0000_0020, "lint"));
    assert_eq!(store.len(), 2);
    assert_eq!(store.get(0x0000_0001_0000_0010), Some("deploy"));
    assert_eq!(store.get(0x0000_0001_0000_0020), Some("lint"));
    assert_eq!(store.iter().len(), 2);
}

#[test]
fn rename_reports_a_change_and_keeps_one_entry() {
    let mut store = NamedBlockStore::new();
    assert!(store.set(3, "a"));
    assert!(store.set(3, "b"));
    assert_eq!(store.len(), 1);
    assert_eq!(store.get(3), Some("b"));
}

#[test]
fn touch_of_an_unknown_block_changes_nothing() {
    let mut store = NamedBlockStore::new();
    store.touch(5);
    assert!(store.is_empty());
}

#[test]
fn removing_a_blank_name_of_an_unknown_block_reports_no_change() {
    let mut store = NamedBlockStore::new();
    assert!(!store.set(8, " \t\n "));
    assert!(store.is_empty());
}

#[test]
fn going_past_the_cap_sheds_the_oldest_entries() {
    let mut names = HashMap::new();
    for i in 0..MAX_NAMED_BLOCKS as u64 {
        names.insert(
            i,
            NamedBlockEntry {
                name: format!("n{}", i),
                last_used_unix: i as i64,
            },
        );
    }
    let mut store = NamedBlockStore::from_map(names);
    assert_eq!(store.len(), MAX_NAMED_BLOCKS);
    assert!(store.set(1_000_000, "fresh"));
    // One over the cap: the excess (1) plus a tenth of the cap go.
    assert_eq!(store.len(), MAX_NAMED_BLOCKS - MAX_NAMED_BLOCKS / 10);
    assert_eq!(store.get(1_000_000), Some("fresh"));
    // The oldest 1001 timestamps (0..=1000) are gone, 1001 stays.
    assert!(store.get(0).is_none());
    assert!(store.get(1000).is_none());
    assert_eq!(store.get(1001), Some("n1001"));
}

#[test]
fn schema_version_defaults_to_current() {
    assert_eq!(default_schema_version(), SCHEMA_VERSION);
    assert_eq!(SCHEMA_VERSION, 1);
}

#[test]
fn unix_now_is_after_the_epoch() {
    assert!(unix_now() > 0);
}

#[test]
fn touch_at_refreshes_only_the_time_of_a_named_block() {
    let mut store = NamedBlockStore::new();
    store.set_at(7, "deploy", 100);
    store.touch_at(7, 250);
    assert_eq!(store.get(7), Some("deploy"));
    assert_eq!(store.iter().iter().find(|(k, _)| *k == 7).map(|(_, e)| e.last_used_unix), Some(250));
    store.touch_at(8, 300);
    assert_eq!(store.get(8), None);
    assert_eq!(store.len(), 1);
}

#[test]
fn set_at_stores_the_trimmed_name_and_the_given_time() {
    let mut store = NamedBlockStore::new();
    assert!(store.set_at(3, "  release  ", 1234));
    let entry = store.iter().into_iter().find(|(k, _)| *k == 3).map(|(_, e)| e).unwrap();
    assert_eq!(entry.name, "release");
    assert_eq!(entry.last_used_unix, 1234);
    assert!(!store.set_at(3, "release", 1300));
}

#[test]
fn saving_keeps_only_the_newest_entries_up_to_the_cap() {
    let mut names = HashMap::new();
    for i in 0..(MAX_NAMED_BLOCKS as u64 + 3) {
        names.insert(i, NamedBlockEntry { name: format!("b{i}"), last_used_unix: i as i64 });
    }
    let store = NamedBlockStore::from_map(names);
    let saved = store.for_saving();
    assert_eq!(saved.len(), MAX_NAMED_BLOCKS);
    assert_eq!(saved.get(0), None);
    assert_eq!(saved.get(2), None);
    assert_eq!(saved.get(3), Some("b3"));
    assert_eq!(store.len(), MAX_NAMED_BLOCKS + 3);
    let small = NamedBlockStore::new();
    assert_eq!(small.for_saving().len(), 0);
}
