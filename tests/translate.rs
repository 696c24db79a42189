use bsky_search::accumulator::DeltaGroup;
use bsky_search::chunks::chunk_keys;
use bsky_search::translate::{adjustment_of, is_plain_key, translate, translate_group, Adjustment, UpdateOperation};

fn keys(n: usize) -> Vec<String> {
    (0..n).map(|i| format!("k{i}")).collect()
}

#[test]
fn chunks_count_is_the_ceiling() {
    for (m, c) in [(0usize, 3usize), (1, 3), (3, 3), (4, 3), (7, 2), (10, 1), (5, 100)] {
        let input = keys(m);
        let chunks = chunk_keys(&input, c);
        assert_eq!(chunks.len(), (m + c - 1) / c);
        assert!(chunks.iter().all(|ch| !ch.is_empty() && ch.len() <= c));
        let flat: Vec<String> = chunks.into_iter().flatten().collect();
        assert_eq!(flat, input);
    }
}

#[test]
fn chunks_of_five_by_two() {
    let chunks = chunk_keys(&keys(5), 2);
    assert_eq!(
        chunks,
        vec![
            vec!["k0".to_string(), "k1".to_string()],
            vec!["k2".to_string(), "k3".to_string()],
            vec!["k4".to_string()],
        ]
    );
}

#[test]
fn delta_three_with_chunk_size_one_gives_two_operations() {
    let group = DeltaGroup { delta: 3, keys: vec!["k1".to_string(), "k2".to_string()] };
    let ops = translate(&vec![group], 1);
    assert_eq!(ops.len(), 2);
    assert_eq!(ops[0].keys, vec!["k1".to_string()]);
    assert_eq!(ops[1].keys, vec!["k2".to_string()]);
    assert_eq!(ops[0].filter(), "rkey IN [\"k1\"]");
    assert_eq!(ops[1].filter(), "rkey IN [\"k2\"]");
    assert_eq!(ops[0].adjustment, Adjustment::Increase(3));
    assert_eq!(ops[1].adjustment, Adjustment::Increase(3));
}

#[test]
fn groups_translate_in_order() {
    let groups = vec![
        DeltaGroup { delta: -2, keys: keys(3) },
        DeltaGroup { delta: 1, keys: vec!["z".to_string()] },
    ];
    let ops = translate(&groups, 2);
    assert_eq!(ops.len(), 3);
    assert_eq!(ops[0].keys, vec!["k0".to_string(), "k1".to_string()]);
    assert_eq!(ops[1].keys, vec!["k2".to_string()]);
    assert_eq!(ops[2].keys, vec!["z".to_string()]);
    assert_eq!(ops[0].adjustment, Adjustment::Decrease(2));
    assert_eq!(ops[1].adjustment, Adjustment::Decrease(2));
    assert_eq!(ops[2].adjustment, Adjustment::Increase(1));
}

#[test]
fn group_with_many_keys_fills_chunks() {
    let group = DeltaGroup { delta: 5, keys: keys(601) };
    let ops = translate_group(&group, 300);
    assert_eq!(ops.iter().map(|o| o.keys.len()).collect::<Vec<_>>(), vec![300, 300, 1]);
}

#[test]
fn filter_joins_quoted_keys() {
    let op = UpdateOperation {
        keys: vec!["a".to_string(), "b".to_string(), "c".to_string()],
        adjustment: Adjustment::Increase(1),
    };
    assert_eq!(op.filter(), "rkey IN [\"a\", \"b\", \"c\"]");
    let empty = UpdateOperation { keys: Vec::new(), adjustment: Adjustment::Absolute(0) };
    assert_eq!(empty.filter(), "rkey IN []");
}

#[test]
fn adjustment_carries_sign_and_size() {
    assert_eq!(adjustment_of(4), Adjustment::Increase(4));
    assert_eq!(adjustment_of(-1), Adjustment::Decrease(1));
    assert_eq!(adjustment_of(i64::MIN), Adjustment::Decrease(1u64 << 63));
    assert_eq!(adjustment_of(i64::MAX), Adjustment::Increase(i64::MAX as u64));
}

#[test]
fn plain_keys_exclude_reserved_characters() {
    assert!(is_plain_key("3l3pte3p2e325"));
    assert!(!is_plain_key(""));
    for bad in ["a,b", "a[", "]", "x\"y", "back\\slash", "it's"] {
        assert!(!is_plain_key(bad), "{bad}");
    }
}

#[test]
fn zero_net_key_is_in_no_operation() {
    let mut acc = bsky_search::accumulator::DeltaAccumulator::new();
    assert!(acc.bump(&"x".to_string(), 1));
    assert!(acc.bump(&"y".to_string(), 1));
    assert!(acc.bump(&"x".to_string(), -1));
    let ops = translate(&acc.drain(), 1);
    assert_eq!(ops.len(), 1);
    assert!(ops.iter().all(|o| !o.keys.contains(&"x".to_string())));
    assert_eq!(ops[0].filter(), "rkey IN [\"y\"]");
}

#[test]
fn nothing_drained_translates_to_nothing() {
    assert!(translate(&Vec::new(), 300).is_empty());
}
