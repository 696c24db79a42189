use bsky_search::coalescer::{partition_additions_and_deletions, Coalescer};

#[test]
fn create_update_delete_leaves_only_the_delete() {
    let mut c: Coalescer<u32> = Coalescer::new();
    c.record("k".to_string(), Some(1));
    c.record("k".to_string(), Some(2));
    c.record("k".to_string(), None);
    assert_eq!(c.len(), 1);
    let (upserts, deletions) = partition_additions_and_deletions(c.drain());
    assert!(upserts.is_empty());
    assert_eq!(deletions, vec!["k".to_string()]);
    assert_eq!(c.len(), 0);
}

#[test]
fn create_update_leaves_one_upsert_of_the_last_payload() {
    let mut c: Coalescer<u32> = Coalescer::new();
    c.record("k".to_string(), Some(1));
    c.record("k".to_string(), Some(2));
    let (upserts, deletions) = partition_additions_and_deletions(c.drain());
    assert_eq!(upserts, vec![2]);
    assert!(deletions.is_empty());
}

#[test]
fn partition_keeps_order() {
    let ops = vec![
        ("a".to_string(), Some(10u32)),
        ("b".to_string(), None),
        ("c".to_string(), Some(30)),
        ("d".to_string(), None),
    ];
    let (upserts, deletions) = partition_additions_and_deletions(ops);
    assert_eq!(upserts, vec![10, 30]);
    assert_eq!(deletions, vec!["b".to_string(), "d".to_string()]);
}

#[test]
fn partition_of_nothing_is_empty() {
    let (upserts, deletions) = partition_additions_and_deletions::<u32>(Vec::new());
    assert!(upserts.is_empty());
    assert!(deletions.is_empty());
}

#[test]
fn distinct_keys_are_all_kept() {
    let mut c: Coalescer<u32> = Coalescer::new();
    c.record("a".to_string(), Some(1));
    c.record("b".to_string(), None);
    c.record("a".to_string(), Some(3));
    assert_eq!(c.len(), 2);
    let mut entries = c.drain();
    entries.sort();
    assert_eq!(entries, vec![("a".to_string(), Some(3)), ("b".to_string(), None)]);
}
