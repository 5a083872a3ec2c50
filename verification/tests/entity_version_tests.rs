use graph_core::block_range::BLOCK_NUMBER_MAX;
use graph_core::entity_version::{EntityVersionStore, VersionTable};

fn attrs(n: i64) -> serde_json::Value {
    serde_json::Value::from(n)
}

#[test]
fn create_then_update_splits_the_range() {
    // Entity created at block 10: range [10, unbounded). Updated at
    // block 20: [10, 20) and [20, unbounded).
    let mut t = VersionTable::new("X".to_string(), 0, false);
    t.create(10, attrs(1));
    assert_eq!(t.version_count(), 1);
    assert_eq!(t.version_range(0), (10, BLOCK_NUMBER_MAX));

    t.update(20, attrs(2));
    assert_eq!(t.version_count(), 2);
    assert_eq!(t.version_range(0), (10, 20));
    assert_eq!(t.version_range(1), (20, BLOCK_NUMBER_MAX));

    // containsAt selects the version visible at the block.
    assert_eq!(t.contains_at(15), vec![0]);
    assert_eq!(t.contains_at(20), vec![1]);
    assert_eq!(t.contains_at(9), Vec::<usize>::new());

    // changedSince returns exactly the versions with lower bound at or
    // above the block.
    assert_eq!(t.changed_since(15), vec![1]);
    assert_eq!(t.changed_since(5), vec![0, 1]);
    assert_eq!(t.changed_since(21), Vec::<usize>::new());

    // Only the unbounded version is current.
    assert!(!t.is_current(0));
    assert!(t.is_current(1));
}

#[test]
fn sequential_mutations_partition_the_range() {
    let mut t = VersionTable::new("X".to_string(), 0, false);
    t.create(1, attrs(0));
    for (i, block) in [3, 6, 9].into_iter().enumerate() {
        t.update(block, attrs(i as i64 + 1));
    }
    // Exactly one version per mutation, contiguous, with exactly one
    // unbounded range.
    assert_eq!(t.version_count(), 4);
    let mut unbounded = 0;
    for i in 0..t.version_count() {
        let (lower, upper) = t.version_range(i);
        assert!(lower < upper);
        if i + 1 < t.version_count() {
            let (next_lower, _) = t.version_range(i + 1);
            assert_eq!(upper, next_lower);
        }
        if upper == BLOCK_NUMBER_MAX {
            unbounded += 1;
        }
    }
    assert_eq!(unbounded, 1);
    assert_eq!(t.version_range(0), (1, 3));
    assert_eq!(t.version_range(3), (9, BLOCK_NUMBER_MAX));
}

#[test]
fn current_version_contains_every_later_block() {
    let mut t = VersionTable::new("X".to_string(), 0, false);
    t.create(10, attrs(1));
    t.update(20, attrs(2));
    for block in [20, 21, 100, BLOCK_NUMBER_MAX] {
        let visible = t.contains_at(block);
        assert!(visible.contains(&1), "the current version must be visible at {}", block);
    }
}

#[test]
fn delete_clamps_without_replacement() {
    let mut t = VersionTable::new("X".to_string(), 0, false);
    t.create(10, attrs(1));
    t.delete(25);
    assert_eq!(t.version_count(), 1);
    assert_eq!(t.version_range(0), (10, 25));
    assert_eq!(t.contains_at(30), Vec::<usize>::new());
    assert!(!t.is_current(0));
}

#[test]
fn immutable_entities_are_visible_from_creation_on() {
    let mut t = VersionTable::new("I".to_string(), 0, true);
    t.create(10, attrs(1));
    assert_eq!(t.contains_at(9), Vec::<usize>::new());
    assert_eq!(t.contains_at(10), vec![0]);
    assert_eq!(t.contains_at(BLOCK_NUMBER_MAX), vec![0]);
    assert!(t.is_current(0));
}

#[test]
fn attributes_travel_with_their_version() {
    let mut t = VersionTable::new("X".to_string(), 0, false);
    t.create(10, attrs(1));
    t.update(20, attrs(2));
    assert_eq!(*t.version_attributes(0), attrs(1));
    assert_eq!(*t.version_attributes(1), attrs(2));
}

#[test]
fn store_routes_by_entity_and_causality_region() {
    let mut store = EntityVersionStore::new();
    store.register("X".to_string(), 0, false);
    store.register("X".to_string(), 1, false);
    store.register("Y".to_string(), 0, true);
    assert_eq!(store.table_count(), 3);

    store.create("X", 0, 10, attrs(1));
    store.create("X", 1, 12, attrs(2));
    store.create("Y", 0, 14, attrs(3));
    store.update("X", 0, 20, attrs(4));

    let x0 = store.table("X", 0).unwrap();
    assert_eq!(x0.version_count(), 2);
    assert_eq!(x0.version_range(0), (10, 20));

    let x1 = store.table("X", 1).unwrap();
    assert_eq!(x1.version_count(), 1);
    assert_eq!(x1.version_range(0), (12, BLOCK_NUMBER_MAX));

    let y0 = store.table("Y", 0).unwrap();
    assert!(y0.immutable());
    assert_eq!(y0.contains_at(14), vec![0]);

    assert!(store.table("Z", 0).is_none());

    store.delete("X", 1, 30);
    let x1 = store.table("X", 1).unwrap();
    assert_eq!(x1.version_range(0), (12, 30));
}

#[test]
fn current_version_contains_the_sentinel_block() {
    // The current version's range is checked by asking whether the
    // sentinel is inside it, so it must contain the sentinel itself.
    let mut t = VersionTable::new("X".to_string(), 0, false);
    t.create(10, attrs(1));
    assert_eq!(t.contains_at(BLOCK_NUMBER_MAX), vec![0]);
    t.update(20, attrs(2));
    assert_eq!(t.contains_at(BLOCK_NUMBER_MAX), vec![1]);
}
