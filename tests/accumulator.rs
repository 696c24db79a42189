use bsky_search::accumulator::{DeltaAccumulator, DeltaGroup};

fn key(s: &str) -> String {
    s.to_string()
}

fn sorted_groups(groups: Vec<DeltaGroup>) -> Vec<(i64, Vec<String>)> {
    let mut out: Vec<(i64, Vec<String>)> = groups
        .into_iter()
        .map(|g| {
            let mut keys = g.keys;
            keys.sort();
            (g.delta, keys)
        })
        .collect();
    out.sort();
    out
}

#[test]
fn drain_groups_keys_by_net_delta() {
    let mut acc = DeltaAccumulator::new();
    assert!(acc.bump(&key("C"), 1));
    assert!(acc.bump(&key("A"), 1));
    assert!(acc.bump(&key("B"), 1));
    assert!(acc.bump(&key("A"), 1));
    assert!(acc.bump(&key("C"), -1));
    let groups = sorted_groups(acc.drain());
    assert_eq!(groups, vec![(1, vec![key("B")]), (2, vec![key("A")])]);
    assert_eq!(acc.len(), 0);
}

#[test]
fn delta_is_the_sum_in_any_order() {
    let steps = [1i64, 1, -1, 1, -1, -1, -1, 1, 1];
    let mut forward = DeltaAccumulator::new();
    for s in steps {
        assert!(forward.bump(&key("k"), s));
    }
    let mut backward = DeltaAccumulator::new();
    for s in steps.iter().rev() {
        assert!(backward.bump(&key("k"), *s));
    }
    let sum: i64 = steps.iter().sum();
    assert_eq!(forward.delta(&key("k")), sum);
    assert_eq!(backward.delta(&key("k")), sum);
}

#[test]
fn key_netting_zero_is_not_drained() {
    let mut acc = DeltaAccumulator::new();
    assert!(acc.bump(&key("x"), 1));
    assert!(acc.bump(&key("y"), -1));
    assert!(acc.bump(&key("x"), -1));
    assert_eq!(acc.len(), 1);
    assert_eq!(acc.delta(&key("x")), 0);
    let groups = acc.drain();
    assert_eq!(groups.len(), 1);
    assert_eq!(groups[0].delta, -1);
    assert_eq!(groups[0].keys, vec![key("y")]);
}

#[test]
fn drain_never_yields_zero_delta() {
    let mut acc = DeltaAccumulator::new();
    for (k, s) in [("a", 1i64), ("b", -1), ("a", -1), ("c", 1), ("b", 1), ("d", -1), ("d", -1)] {
        assert!(acc.bump(&key(k), s));
    }
    let groups = acc.drain();
    assert!(groups.iter().all(|g| g.delta != 0 && !g.keys.is_empty()));
    assert_eq!(sorted_groups(groups), vec![(-2, vec![key("d")]), (1, vec![key("c")])]);
}

#[test]
fn drain_empties_and_accumulates_again() {
    let mut acc = DeltaAccumulator::new();
    assert!(acc.drain().is_empty());
    assert!(acc.bump(&key("a"), 1));
    assert_eq!(acc.drain().len(), 1);
    assert_eq!(acc.len(), 0);
    assert_eq!(acc.delta(&key("a")), 0);
    assert!(acc.bump(&key("a"), -1));
    assert_eq!(acc.delta(&key("a")), -1);
}

#[test]
fn keys_sharing_a_delta_share_a_group() {
    let mut acc = DeltaAccumulator::new();
    for k in ["p", "q", "r"] {
        assert!(acc.bump(&key(k), 1));
    }
    let groups = sorted_groups(acc.drain());
    assert_eq!(groups, vec![(1, vec![key("p"), key("q"), key("r")])]);
}

#[test]
fn interleaved_bumps_in_any_order_drain_alike() {
    let events = [("a", 1i64), ("b", -1), ("a", 1), ("c", 1), ("b", -1), ("c", -1), ("a", -1)];
    let mut forward = DeltaAccumulator::new();
    for (k, s) in events {
        assert!(forward.bump(&key(k), s));
    }
    let mut shuffled = DeltaAccumulator::new();
    for i in [3usize, 6, 1, 0, 5, 2, 4] {
        let (k, s) = events[i];
        assert!(shuffled.bump(&key(k), s));
    }
    let expected = vec![(-2, vec![key("b")]), (1, vec![key("a")])];
    assert_eq!(sorted_groups(forward.drain()), expected);
    assert_eq!(sorted_groups(shuffled.drain()), expected);
}
