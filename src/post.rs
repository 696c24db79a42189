//! The indexed post document, built from the plain fields of a post event.

use vstd::prelude::*;

verus! {

/// The event envelope: the author's identifier and the event time.
pub struct EventInfo {
    pub did: String,
    pub time_us: u64,
}

/// The commit of a record: its key within the collection.
pub struct CommitInfo {
    pub rkey: String,
}

/// A rich-text feature of a post: its type name and its value.
pub struct PostEntity {
    pub kind: String,
    pub value: String,
}

/// The fields of a post record that the index keeps.
pub struct RecordData {
    pub text: String,
    pub langs: Option<Vec<String>>,
    pub entities: Option<Vec<PostEntity>>,
    pub tags: Option<Vec<String>>,
    pub created_at: String,
}

/// A post as the index stores it, keyed by `rkey`.
pub struct BskyPost {
    pub rkey: String,
    pub text: String,
    pub mentions: Vec<String>,
    pub tags: Vec<String>,
    pub langs: Vec<String>,
    pub created_at: String,
    pub created_at_timestamp: u64,
    pub link: String,
    pub likes: Option<u64>,
}

/// The web address of the post `rkey` of the author `did`.
pub open spec fn post_link(did: Seq<char>, rkey: Seq<char>) -> Seq<char> {
    "https://bsky.app/profile/"@ + did + "/post/"@ + rkey
}

/// The values of the mention entities, in order.
pub open spec fn mention_values(entities: Seq<PostEntity>) -> Seq<String>
    decreases entities.len(),
{
    if entities.len() == 0 {
        Seq::empty()
    } else if entities.last().kind@ == "mention"@ {
        mention_values(entities.drop_last()).push(entities.last().value)
    } else {
        mention_values(entities.drop_last())
    }
}

/// The items of an optional list, none when it is absent.
pub open spec fn or_empty<A>(v: Option<Vec<A>>) -> Seq<A> {
    match v {
        Some(v) => v@,
        None => Seq::empty(),
    }
}

/// The values of the mention entities, in order.
fn mentions_of(entities: &Vec<PostEntity>) -> (r: Vec<String>)
    ensures
        r@ == mention_values(entities@),
{
    let mention = String::from_str("mention");
    let mut r: Vec<String> = Vec::new();
    let mut i: usize = 0;
    while i < entities.len()
        invariant
            i <= entities@.len(),
            mention@ == "mention"@,
            r@ == mention_values(entities@.subrange(0, i as int)),
        decreases entities@.len() - i,
    {
        proof {
            let next = entities@.subrange(0, i + 1);
            assert(next.drop_last() =~= entities@.subrange(0, i as int));
            assert(next.last() == entities@[i as int]);
        }
        if entities[i].kind == mention {
            r.push(entities[i].value.clone());
        }
        i = i + 1;
    }
    proof {
        assert(entities@.subrange(0, entities@.len() as int) =~= entities@);
    }
    r
}

impl BskyPost {
    /// The document for a post: its key, text, languages, tags and the values
    /// of its mentions, the event time as its timestamp, and its web link.
    /// No like count is set.
    pub fn new(event_info: EventInfo, commit_info: CommitInfo, record_data: RecordData) -> (r: BskyPost)
        ensures
            r.rkey@ == commit_info.rkey@,
            r.text == record_data.text,
            r.mentions@ == match record_data.entities {
                Some(v) => mention_values(v@),
                None => Seq::empty(),
            },
            r.tags@ == or_empty(record_data.tags),
            r.langs@ == or_empty(record_data.langs),
            r.created_at == record_data.created_at,
            r.created_at_timestamp == event_info.time_us,
            r.link@ == post_link(event_info.did@, commit_info.rkey@),
            r.likes is None,
    {
        let mut link = String::from_str("https://bsky.app/profile/");
        link.append(event_info.did.as_str());
        link.append("/post/");
        link.append(commit_info.rkey.as_str());
        let RecordData { text, langs, entities, tags, created_at } = record_data;
        let mentions = match &entities {
            Some(v) => mentions_of(v),
            None => Vec::new(),
        };
        let langs = match langs {
            Some(v) => v,
            None => Vec::new(),
        };
        let tags = match tags {
            Some(v) => v,
            None => Vec::new(),
        };
        BskyPost {
            rkey: commit_info.rkey,
            text,
            mentions,
            tags,
            langs,
            created_at,
            created_at_timestamp: event_info.time_us,
            link,
            likes: None,
        }
    }
}

/// The like count of a post, written as an absolute value.
pub struct BskyPostLikesOnly {
    pub rkey: String,
    pub likes: u64,
}

/// Pairs each key read back from the count cache with the count read for
/// it, in order. `None` when the two lists differ in length.
pub fn likes_updates(rkeys: Vec<String>, values: Vec<u64>) -> (r: Option<Vec<BskyPostLikesOnly>>)
    ensures
        r is None <==> rkeys@.len() != values@.len(),
        r matches Some(u) ==> u@.len() == rkeys@.len() && forall|i: int|
            0 <= i < u@.len() ==> (#[trigger] u@[i]).rkey == rkeys@[i] && u@[i].likes == values@[i],
{
    if rkeys.len() != values.len() {
        return None;
    }
    let mut updated: Vec<BskyPostLikesOnly> = Vec::new();
    let mut i: usize = 0;
    while i < rkeys.len()
        invariant
            i <= rkeys@.len(),
            rkeys@.len() == values@.len(),
            updated@.len() == i,
            forall|j: int| 0 <= j < i ==> (#[trigger] updated@[j]).rkey == rkeys@[j] && updated@[j].likes == values@[j],
        decreases rkeys@.len() - i,
    {
        updated.push(BskyPostLikesOnly { rkey: rkeys[i].clone(), likes: values[i] });
        i = i + 1;
    }
    Some(updated)
}

} // verus!
