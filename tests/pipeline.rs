use bsky_search::pipeline::{Action, CountStrategy, Event, Pipeline, PipelineConfig};
use bsky_search::post::{BskyPost, CommitInfo, EventInfo, RecordData};
use bsky_search::translate::Adjustment;

fn post(rkey: &str, text: &str) -> BskyPost {
    BskyPost::new(
        EventInfo { did: "did:plc:a".to_string(), time_us: 1 },
        CommitInfo { rkey: rkey.to_string() },
        RecordData {
            text: text.to_string(),
            langs: None,
            entities: None,
            tags: None,
            created_at: String::new(),
        },
    )
}

fn config(payload_size: usize, likes_every: Option<usize>, strategy: CountStrategy) -> PipelineConfig {
    PipelineConfig { payload_size, likes_every, strategy, update_chunk: 300, read_chunk: 100 }
}

fn like(rkey: &str) -> Event {
    Event::LikeCreate(format!("at://did:plc:x/app.bsky.feed.post/{rkey}"))
}

#[test]
fn second_post_of_batch_of_two_flushes_both() {
    let mut p = Pipeline::new(config(2, None, CountStrategy::FunctionBatch));
    assert!(p.handle(Event::PostUpsert(post("post1", "one"))).is_empty());
    assert_eq!(p.pending_post_count(), 1);
    let actions = p.handle(Event::PostUpsert(post("post2", "two")));
    assert_eq!(actions.len(), 1);
    match &actions[0] {
        Action::WritePosts { upserts, deletions } => {
            let mut keys: Vec<&str> = upserts.iter().map(|d| d.rkey.as_str()).collect();
            keys.sort();
            assert_eq!(keys, vec!["post1", "post2"]);
            assert!(deletions.is_empty());
        }
        _ => panic!("expected a post write"),
    }
    assert_eq!(p.pending_post_count(), 0);
    assert_eq!(p.pending_like_count(), 0);
}

#[test]
fn repeated_key_does_not_fill_the_batch() {
    let mut p = Pipeline::new(config(2, None, CountStrategy::FunctionBatch));
    assert!(p.handle(Event::PostUpsert(post("post1", "a"))).is_empty());
    assert!(p.handle(Event::PostUpsert(post("post1", "b"))).is_empty());
    let actions = p.handle(Event::PostDelete("post2".to_string()));
    assert_eq!(actions.len(), 1);
    match &actions[0] {
        Action::WritePosts { upserts, deletions } => {
            assert_eq!(upserts.len(), 1);
            assert_eq!(upserts[0].text, "b");
            assert_eq!(deletions, &vec!["post2".to_string()]);
        }
        _ => panic!("expected a post write"),
    }
}

#[test]
fn likes_flush_on_every_second_post_flush() {
    let mut p = Pipeline::new(config(1, Some(2), CountStrategy::FunctionBatch));
    assert!(p.handle(like("t1")).is_empty());
    assert!(p.handle(like("t1")).is_empty());
    assert!(p.handle(like("t2")).is_empty());
    assert_eq!(p.pending_delta(&"t1".to_string()), 2);
    assert_eq!(p.handle(Event::PostUpsert(post("post1", "x"))).len(), 1);
    let actions = p.handle(Event::PostUpsert(post("post2", "y")));
    assert_eq!(actions.len(), 2);
    match &actions[1] {
        Action::ApplyUpdates(ops) => {
            let mut seen: Vec<(String, Adjustment)> =
                ops.iter().map(|o| (o.keys.join(","), o.adjustment)).collect();
            seen.sort_by(|a, b| a.0.cmp(&b.0));
            assert_eq!(
                seen,
                vec![("t1".to_string(), Adjustment::Increase(2)), ("t2".to_string(), Adjustment::Increase(1))]
            );
        }
        _ => panic!("expected relative updates"),
    }
    assert_eq!(p.pending_like_count(), 0);
}

#[test]
fn removed_like_takes_one_off() {
    let mut p = Pipeline::new(config(10, Some(1), CountStrategy::FunctionBatch));
    p.handle(like("t"));
    p.handle(Event::LikeDelete("at://did:plc:x/app.bsky.feed.post/t".to_string()));
    assert_eq!(p.pending_like_count(), 0);
    p.handle(Event::LikeDelete("at://did:plc:x/app.bsky.feed.post/u".to_string()));
    assert_eq!(p.pending_delta(&"u".to_string()), -1);
}

#[test]
fn likes_are_ignored_when_untracked_or_malformed() {
    let mut off = Pipeline::new(config(10, None, CountStrategy::FunctionBatch));
    assert!(off.handle(like("t")).is_empty());
    assert_eq!(off.pending_like_count(), 0);
    let mut on = Pipeline::new(config(10, Some(1), CountStrategy::FunctionBatch));
    assert!(on.handle(Event::LikeCreate("no-slash".to_string())).is_empty());
    assert!(on.handle(Event::LikeCreate("a/b,c".to_string())).is_empty());
    assert!(on.handle(Event::Other).is_empty());
    assert_eq!(on.pending_like_count(), 0);
}

#[test]
fn cache_mode_asks_for_a_lookup() {
    let mut p = Pipeline::new(config(10, Some(1), CountStrategy::CacheSeeding));
    let actions = p.handle(like("t"));
    assert_eq!(actions.len(), 1);
    assert!(matches!(&actions[0], Action::LookupCount(k) if k == "t"));
    assert_eq!(p.pending_like_count(), 0);
}

#[test]
fn lookup_not_found_records_nothing() {
    let mut p = Pipeline::new(config(1, Some(1), CountStrategy::CacheSeeding));
    assert!(p.on_lookup("gone".to_string(), None).is_empty());
    assert_eq!(p.outdated_count(), 0);
    assert_eq!(p.pending_like_count(), 0);
    let actions = p.handle(Event::PostUpsert(post("p", "x")));
    assert_eq!(actions.len(), 1);
}

#[test]
fn lookup_found_seeds_and_reads_back_later() {
    let mut p = Pipeline::new(config(1, Some(1), CountStrategy::CacheSeeding));
    let actions = p.on_lookup("t".to_string(), Some(41));
    assert_eq!(actions.len(), 1);
    assert!(matches!(&actions[0], Action::SeedAndIncrement { key, seed: 41 } if key == "t"));
    p.on_lookup("t".to_string(), Some(41));
    p.on_lookup("u".to_string(), Some(0));
    assert_eq!(p.outdated_count(), 2);
    let actions = p.handle(Event::PostUpsert(post("p", "x")));
    assert_eq!(actions.len(), 2);
    match &actions[1] {
        Action::ReadBackCounts(chunks) => {
            assert_eq!(chunks, &vec![vec!["t".to_string(), "u".to_string()]]);
        }
        _ => panic!("expected a read-back"),
    }
    assert_eq!(p.outdated_count(), 0);
}
