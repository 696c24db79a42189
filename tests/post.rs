use bsky_search::post::{likes_updates, BskyPost, CommitInfo, EventInfo, PostEntity, RecordData};
use bsky_search::reference::referenced_key;
use bsky_search::store::{convert_invalid_request_to_none, is_soft_miss, FailureKind};
use meilisearch_sdk::errors::{Error, ErrorCode, ErrorType, MeilisearchError};

#[test]
fn post_document_from_event_fields() {
    let post = BskyPost::new(
        EventInfo { did: "did:plc:abc".to_string(), time_us: 1_725_000_000_000_000 },
        CommitInfo { rkey: "3l3pte3p2e325".to_string() },
        RecordData {
            text: "hello @bob #rust".to_string(),
            langs: Some(vec!["en".to_string()]),
            entities: Some(vec![
                PostEntity { kind: "mention".to_string(), value: "did:plc:bob".to_string() },
                PostEntity { kind: "link".to_string(), value: "https://x.y".to_string() },
                PostEntity { kind: "mention".to_string(), value: "did:plc:eve".to_string() },
            ]),
            tags: None,
            created_at: "2024-09-01T00:00:00Z".to_string(),
        },
    );
    assert_eq!(post.rkey, "3l3pte3p2e325");
    assert_eq!(post.text, "hello @bob #rust");
    assert_eq!(post.mentions, vec!["did:plc:bob".to_string(), "did:plc:eve".to_string()]);
    assert!(post.tags.is_empty());
    assert_eq!(post.langs, vec!["en".to_string()]);
    assert_eq!(post.created_at, "2024-09-01T00:00:00Z");
    assert_eq!(post.created_at_timestamp, 1_725_000_000_000_000);
    assert_eq!(post.link, "https://bsky.app/profile/did:plc:abc/post/3l3pte3p2e325");
    assert_eq!(post.likes, None);
}

#[test]
fn post_without_optional_lists() {
    let post = BskyPost::new(
        EventInfo { did: "d".to_string(), time_us: 7 },
        CommitInfo { rkey: "r".to_string() },
        RecordData {
            text: String::new(),
            langs: None,
            entities: None,
            tags: Some(vec!["t".to_string()]),
            created_at: String::new(),
        },
    );
    assert!(post.mentions.is_empty());
    assert!(post.langs.is_empty());
    assert_eq!(post.tags, vec!["t".to_string()]);
    assert_eq!(post.link, "https://bsky.app/profile/d/post/r");
}

#[test]
fn reference_gives_trailing_segment() {
    assert_eq!(
        referenced_key("at://did:plc:wa7b35aakoll7hugkrjtf3xf/app.bsky.feed.post/3l3pte3p2e325"),
        Some("3l3pte3p2e325".to_string())
    );
    assert_eq!(referenced_key("a/b/c"), Some("c".to_string()));
    assert_eq!(referenced_key("no-slash"), None);
    assert_eq!(referenced_key("ends/"), None);
    assert_eq!(referenced_key("x/bad,key"), None);
    assert_eq!(referenced_key(""), None);
}

#[test]
fn read_back_pairs_keys_and_counts() {
    let updates = likes_updates(vec!["a".to_string(), "b".to_string()], vec![3, 0]).unwrap();
    assert_eq!(updates.len(), 2);
    assert_eq!((updates[0].rkey.as_str(), updates[0].likes), ("a", 3));
    assert_eq!((updates[1].rkey.as_str(), updates[1].likes), ("b", 0));
    assert!(likes_updates(vec!["a".to_string()], vec![]).is_none());
}

fn server_error(code: ErrorCode) -> Error {
    Error::Meilisearch(MeilisearchError {
        error_message: "msg".to_string(),
        error_code: code,
        error_type: ErrorType::InvalidRequest,
        error_link: String::new(),
    })
}

#[test]
fn not_found_is_a_soft_miss() {
    let r = convert_invalid_request_to_none::<u32>(server_error(ErrorCode::DocumentNotFound));
    assert!(matches!(r, Ok(None)));
}

#[test]
fn other_failures_are_kept() {
    let r = convert_invalid_request_to_none::<u32>(server_error(ErrorCode::IndexNotFound));
    assert!(matches!(r, Err(Error::Meilisearch(_))));
    let r = convert_invalid_request_to_none::<u32>(Error::Timeout);
    assert!(matches!(r, Err(Error::Timeout)));
}

#[test]
fn only_not_found_is_soft() {
    assert!(is_soft_miss(FailureKind::DocumentNotFound));
    assert!(!is_soft_miss(FailureKind::Rejected));
    assert!(!is_soft_miss(FailureKind::Transport));
}
