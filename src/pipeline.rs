//! The event router and flush policy: a state machine from events to the
//! batched writes the store must receive.

use vstd::prelude::*;
use crate::accumulator::{
    bumped,
    delta_of,
    group_has,
    groups_represent,
    DeltaAccumulator,
    DeltaGroup,
};
use crate::chunks::{chunk_at, chunk_keys, chunked};
use crate::coalescer::{
    deletions_of,
    entries_represent,
    partition_additions_and_deletions,
    upserts_of,
    Coalescer,
};
use crate::post::BskyPost;
use crate::reference::{referenced_key, referenced_key_of};
use crate::translate::{
    lemma_planned_keys_come_from_groups,
    ops_view,
    plain_key,
    plan,
    translate,
    UpdateOperation,
};

verus! {

/// How like counts reach the store.
#[derive(PartialEq, Eq, Structural, Clone, Copy, Debug)]
pub enum CountStrategy {
    /// Deltas are sent as relative updates over a filter of keys.
    FunctionBatch,
    /// Counts are seeded and incremented in a side cache, then read back and
    /// written as absolute values.
    CacheSeeding,
}

/// The settings of a pipeline.
#[derive(PartialEq, Eq, Structural, Clone, Copy, Debug)]
pub struct PipelineConfig {
    /// Pending post intents that trigger a post flush.
    pub payload_size: usize,
    /// Post flushes between two like flushes; `None` leaves likes untracked.
    pub likes_every: Option<usize>,
    pub strategy: CountStrategy,
    /// Keys per relative update operation.
    pub update_chunk: usize,
    /// Keys per read-back of cached counts.
    pub read_chunk: usize,
}

/// All sizes of the settings are positive.
pub open spec fn config_valid(c: PipelineConfig) -> bool {
    &&& c.payload_size > 0
    &&& c.update_chunk > 0
    &&& c.read_chunk > 0
    &&& c.likes_every matches Some(n) ==> n > 0
}

/// One event of the log, with the fields the pipeline reads.
pub enum Event {
    /// A post was created or updated.
    PostUpsert(BskyPost),
    /// The post with this key was deleted.
    PostDelete(String),
    /// A like of the entity at this reference URI was created.
    LikeCreate(String),
    /// A like of the entity at this reference URI was deleted.
    LikeDelete(String),
    /// Anything else: ignored.
    Other,
}

/// One piece of outside work that the pipeline asks for.
pub enum Action {
    /// Upsert these documents by key and delete the documents of these keys.
    WritePosts { upserts: Vec<BskyPost>, deletions: Vec<String> },
    /// Look up the stored like count of this key; hand the answer to `on_lookup`.
    LookupCount(String),
    /// Set the cached count of the key to `seed` if it has none, then add one to it.
    SeedAndIncrement { key: String, seed: u64 },
    /// Apply these relative updates.
    ApplyUpdates(Vec<UpdateOperation>),
    /// Read the cached counts of each chunk of keys and write them as absolute values.
    ReadBackCounts(Vec<Vec<String>>),
}

/// `a` writes the intents of `m`, each key once.
pub open spec fn writes_posts(a: Action, m: Map<Seq<char>, Option<BskyPost>>) -> bool {
    match a {
        Action::WritePosts { upserts, deletions } => exists|e: Seq<(String, Option<BskyPost>)>|
            entries_represent(e, m) && upserts@ == upserts_of(e) && deletions@ == deletions_of(e),
        _ => false,
    }
}

/// Nothing is pending for likes under the strategy of `c`.
pub open spec fn likes_idle(c: PipelineConfig, likes: Map<Seq<char>, int>, outdated: Seq<String>) -> bool {
    match c.strategy {
        CountStrategy::FunctionBatch => likes.len() == 0,
        CountStrategy::CacheSeeding => outdated.len() == 0,
    }
}

/// `a` sends the pending likes under the strategy of `c`: the deltas as
/// relative updates, or the touched keys as chunks to read back.
pub open spec fn writes_likes(
    a: Action,
    c: PipelineConfig,
    likes: Map<Seq<char>, int>,
    outdated: Seq<String>,
) -> bool {
    match c.strategy {
        CountStrategy::FunctionBatch => match a {
            Action::ApplyUpdates(ops) => exists|g: Seq<DeltaGroup>|
                groups_represent(g, likes) && ops_view(ops@) == plan(g, c.update_chunk as nat),
            _ => false,
        },
        CountStrategy::CacheSeeding => match a {
            Action::ReadBackCounts(chunks) => chunked(
                outdated,
                c.read_chunk as nat,
                chunks@.map_values(|v: Vec<String>| v@),
            ),
            _ => false,
        },
    }
}

/// `s` holds no two keys that read the same.
pub open spec fn distinct_keys(s: Seq<String>) -> bool {
    forall|i: int, j: int| 0 <= i < s.len() && 0 <= j < s.len() && i != j ==> (#[trigger] s[i])@ != (#[trigger] s[j])@
}

/// `s` with `k` added at the end, unless a key reading the same is there.
pub open spec fn with_key(s: Seq<String>, k: String) -> Seq<String> {
    if exists|i: int| 0 <= i < s.len() && (#[trigger] s[i])@ == k@ {
        s
    } else {
        s.push(k)
    }
}

/// Routes events to the post coalescer and the like accumulator, and
/// decides when each is flushed.
pub struct Pipeline {
    config: PipelineConfig,
    posts: Coalescer<BskyPost>,
    likes: DeltaAccumulator,
    outdated: Vec<String>,
    since_likes_flush: usize,
}

impl Pipeline {
    /// The settings the pipeline was made with.
    pub closed spec fn settings(&self) -> PipelineConfig {
        self.config
    }

    /// The pending intent of each post key.
    pub closed spec fn pending_posts(&self) -> Map<Seq<char>, Option<BskyPost>> {
        self.posts@
    }

    /// The pending like delta of each key (relative updates).
    pub closed spec fn pending_likes(&self) -> Map<Seq<char>, int> {
        self.likes@
    }

    /// The keys whose cached count changed since the last read-back.
    pub closed spec fn outdated_keys(&self) -> Seq<String> {
        self.outdated@
    }

    /// Post flushes since the last like flush.
    pub closed spec fn since_likes_flush(&self) -> nat {
        self.since_likes_flush as nat
    }

    /// Each part is well formed and fewer than `payload_size` post keys are pending.
    pub closed spec fn wf(&self) -> bool {
        &&& self.parts_wf()
        &&& self.posts@.len() < self.config.payload_size
    }

    /// Each part is well formed; the post batch may have reached its size.
    closed spec fn parts_wf(&self) -> bool {
        &&& config_valid(self.config)
        &&& self.posts.wf()
        &&& self.likes.wf()
        &&& forall|k: Seq<char>| #[trigger] self.likes@.contains_key(k) ==> plain_key(k)
        &&& distinct_keys(self.outdated@)
        &&& match self.config.likes_every {
            Some(n) => self.since_likes_flush < n,
            None => self.since_likes_flush == 0,
        }
    }

    /// A pipeline with nothing pending.
    pub fn new(config: PipelineConfig) -> (r: Pipeline)
        requires
            config_valid(config),
        ensures
            r.wf(),
            r.settings() == config,
            r.pending_posts() == Map::<Seq<char>, Option<BskyPost>>::empty(),
            r.pending_likes() == Map::<Seq<char>, int>::empty(),
            r.outdated_keys() == Seq::<String>::empty(),
            r.since_likes_flush() == 0,
    {
        Pipeline {
            config,
            posts: Coalescer::new(),
            likes: DeltaAccumulator::new(),
            outdated: Vec::new(),
            since_likes_flush: 0,
        }
    }

    /// The number of post keys with a pending intent.
    pub fn pending_post_count(&self) -> (r: usize)
        requires
            self.wf(),
        ensures
            r == self.pending_posts().len(),
    {
        self.posts.len()
    }

    /// The number of keys with a pending like delta.
    pub fn pending_like_count(&self) -> (r: usize)
        requires
            self.wf(),
        ensures
            r == self.pending_likes().len(),
    {
        self.likes.len()
    }

    /// The number of keys waiting for a read-back of their cached count.
    pub fn outdated_count(&self) -> (r: usize)
        ensures
            r == self.outdated_keys().len(),
    {
        self.outdated.len()
    }

    /// The pending like delta of `key`, zero when it has none.
    pub fn pending_delta(&self, key: &String) -> (r: i64)
        requires
            self.wf(),
        ensures
            r as int == delta_of(self.pending_likes(), key@),
    {
        self.likes.delta(key)
    }

    fn flush_posts(&mut self) -> (a: Action)
        requires
            old(self).parts_wf(),
        ensures
            final(self).wf(),
            writes_posts(a, old(self).pending_posts()),
            final(self).pending_posts() == Map::<Seq<char>, Option<BskyPost>>::empty(),
            final(self).settings() == old(self).settings(),
            final(self).pending_likes() == old(self).pending_likes(),
            final(self).outdated_keys() == old(self).outdated_keys(),
            final(self).since_likes_flush() == old(self).since_likes_flush(),
    {
        let entries = self.posts.drain();
        let ghost e = entries@;
        let (upserts, deletions) = partition_additions_and_deletions(entries);
        let a = Action::WritePosts { upserts, deletions };
        assert(entries_represent(e, old(self).pending_posts()) && upserts@ == upserts_of(e)
            && deletions@ == deletions_of(e));
        a
    }

    fn flush_likes(&mut self) -> (a: Option<Action>)
        requires
            old(self).wf(),
        ensures
            final(self).wf(),
            final(self).settings() == old(self).settings(),
            final(self).pending_posts() == old(self).pending_posts(),
            final(self).since_likes_flush() == old(self).since_likes_flush(),
            likes_idle(old(self).settings(), old(self).pending_likes(), old(self).outdated_keys()) ==> {
                &&& a is None
                &&& final(self).pending_likes() == old(self).pending_likes()
                &&& final(self).outdated_keys() == old(self).outdated_keys()
            },
            !likes_idle(old(self).settings(), old(self).pending_likes(), old(self).outdated_keys()) ==> {
                &&& (a matches Some(x) && writes_likes(
                    x,
                    old(self).settings(),
                    old(self).pending_likes(),
                    old(self).outdated_keys(),
                ))
                &&& final(self).pending_likes() == (match old(self).settings().strategy {
                    CountStrategy::FunctionBatch => Map::<Seq<char>, int>::empty(),
                    CountStrategy::CacheSeeding => old(self).pending_likes(),
                })
                &&& final(self).outdated_keys() == (match old(self).settings().strategy {
                    CountStrategy::FunctionBatch => old(self).outdated_keys(),
                    CountStrategy::CacheSeeding => Seq::<String>::empty(),
                })
            },
    {
        match self.config.strategy {
            CountStrategy::FunctionBatch => {
                if self.likes.len() == 0 {
                    return None;
                }
                let groups = self.likes.drain();
                let ops = translate(&groups, self.config.update_chunk);
                let a = Action::ApplyUpdates(ops);
                assert(groups_represent(groups@, old(self).pending_likes()) && ops_view(ops@) == plan(
                    groups@,
                    self.config.update_chunk as nat,
                ));
                Some(a)
            },
            CountStrategy::CacheSeeding => {
                if self.outdated.len() == 0 {
                    return None;
                }
                let chunks = chunk_keys(&self.outdated, self.config.read_chunk);
                self.outdated = Vec::new();
                Some(Action::ReadBackCounts(chunks))
            },
        }
    }

    fn record_post(&mut self, key: String, intent: Option<BskyPost>) -> (actions: Vec<Action>)
        requires
            old(self).wf(),
        ensures
            final(self).wf(),
            post_step(*old(self), *final(self), key@, intent, actions@),
    {
        self.posts.record(key, intent);
        let mut actions: Vec<Action> = Vec::new();
        if self.posts.len() < self.config.payload_size {
            return actions;
        }
        let a = self.flush_posts();
        actions.push(a);
        match self.config.likes_every {
            None => {},
            Some(n) => {
                if self.since_likes_flush + 1 >= n {
                    self.since_likes_flush = 0;
                    match self.flush_likes() {
                        Some(b) => {
                            actions.push(b);
                        },
                        None => {},
                    }
                } else {
                    self.since_likes_flush = self.since_likes_flush + 1;
                }
            },
        }
        actions
    }

    /// Routes one event. A post created or updated, or deleted, becomes the
    /// latest intent for its key; once `payload_size` keys are pending they
    /// are flushed as one write, and every `likes_every`-th such flush also
    /// flushes the likes. A like names its entity by the last segment of its
    /// reference; one whose reference gives no key is dropped. With relative
    /// updates a like adds one to the key's delta and a removed like takes
    /// one off; with the count cache a like asks for a lookup of the entity,
    /// and a removed like is not tracked.
    pub fn handle(&mut self, event: Event) -> (actions: Vec<Action>)
        requires
            old(self).wf(),
        ensures
            final(self).wf(),
            event_step(*old(self), *final(self), event, actions@),
            final(self).pending_posts().len() < final(self).settings().payload_size,
            forall|k: Seq<char>| #[trigger] final(self).pending_likes().contains_key(k) ==> plain_key(k),
    {
        match event {
            Event::PostUpsert(post) => {
                let key = post.rkey.clone();
                self.record_post(key, Some(post))
            },
            Event::PostDelete(key) => self.record_post(key, None),
            Event::LikeCreate(uri) => self.route_like(&uri, 1),
            Event::LikeDelete(uri) => self.route_like(&uri, -1),
            Event::Other => Vec::new(),
        }
    }

    fn route_like(&mut self, uri: &String, step: i64) -> (actions: Vec<Action>)
        requires
            old(self).wf(),
            step == 1 || step == -1,
        ensures
            final(self).wf(),
            like_step(*old(self), *final(self), uri@, step as int, actions@),
    {
        let mut actions: Vec<Action> = Vec::new();
        if self.config.likes_every.is_none() {
            return actions;
        }
        let key = match referenced_key(uri.as_str()) {
            Some(k) => k,
            None => {
                return actions;
            },
        };
        assert(plain_key(key@));
        match self.config.strategy {
            CountStrategy::FunctionBatch => {
                let _applied = self.likes.bump(&key, step);
            },
            CountStrategy::CacheSeeding => {
                if step == 1 {
                    actions.push(Action::LookupCount(key));
                }
            },
        }
        actions
    }

    /// Takes the answer to a `LookupCount`: an entity the store does not
    /// hold is dropped with no write; one it holds gets its cached count
    /// seeded with the stored count and incremented, and joins the keys to
    /// read back.
    pub fn on_lookup(&mut self, key: String, stored: Option<u64>) -> (actions: Vec<Action>)
        requires
            old(self).wf(),
        ensures
            final(self).wf(),
            final(self).settings() == old(self).settings(),
            final(self).pending_posts() == old(self).pending_posts(),
            final(self).pending_likes() == old(self).pending_likes(),
            final(self).since_likes_flush() == old(self).since_likes_flush(),
            stored is None ==> actions@.len() == 0 && final(self).outdated_keys() == old(self).outdated_keys(),
            stored matches Some(c) ==> {
                &&& actions@.len() == 1
                &&& (actions@[0] matches Action::SeedAndIncrement { key: k, seed } && k == key && seed == c)
                &&& final(self).outdated_keys() == with_key(old(self).outdated_keys(), key)
            },
    {
        let mut actions: Vec<Action> = Vec::new();
        match stored {
            None => actions,
            Some(c) => {
                let ghost before = self.outdated@;
                let mut i: usize = 0;
                let mut seen = false;
                while i < self.outdated.len()
                    invariant_except_break
                        !seen,
                    invariant
                        self.outdated@ == before,
                        i <= before.len(),
                        forall|j: int| 0 <= j < i ==> (#[trigger] before[j])@ != key@,
                    ensures
                        seen ==> exists|j: int| 0 <= j < before.len() && (#[trigger] before[j])@ == key@,
                        !seen ==> forall|j: int| 0 <= j < before.len() ==> (#[trigger] before[j])@ != key@,
                    decreases before.len() - i,
                {
                    if self.outdated[i] == key {
                        assert(before[i as int]@ == key@);
                        seen = true;
                        break;
                    }
                    i = i + 1;
                }
                if !seen {
                    self.outdated.push(key.clone());
                    proof {
                        assert forall|a: int, b: int|
                            0 <= a < self.outdated@.len() && 0 <= b < self.outdated@.len() && a != b
                            implies (#[trigger] self.outdated@[a])@ != (#[trigger] self.outdated@[b])@ by {
                            if a < before.len() && b < before.len() {
                                assert(self.outdated@[a] == before[a]);
                                assert(self.outdated@[b] == before[b]);
                            } else if a < before.len() {
                                assert(self.outdated@[a] == before[a]);
                            } else {
                                assert(self.outdated@[b] == before[b]);
                            }
                        }
                    }
                }
                actions.push(Action::SeedAndIncrement { key, seed: c });
                actions
            },
        }
    }
}

/// What routing a like event does: nothing when likes are untracked or the
/// reference gives no key; otherwise a bump of the key's delta by `step`
/// (left as it was when it would overflow), or, with the count cache, a
/// lookup for a new like and nothing for a removed one.
pub open spec fn like_step(old: Pipeline, new: Pipeline, uri: Seq<char>, step: int, actions: Seq<Action>) -> bool {
    &&& new.settings() == old.settings()
    &&& new.pending_posts() == old.pending_posts()
    &&& new.outdated_keys() == old.outdated_keys()
    &&& new.since_likes_flush() == old.since_likes_flush()
    &&& if old.settings().likes_every is None || referenced_key_of(uri) is None {
        new.pending_likes() == old.pending_likes() && actions.len() == 0
    } else {
        let k = referenced_key_of(uri)->0;
        match old.settings().strategy {
            CountStrategy::FunctionBatch => {
                &&& actions.len() == 0
                &&& new.pending_likes() == if i64::MIN <= delta_of(old.pending_likes(), k) + step
                    <= i64::MAX {
                    bumped(old.pending_likes(), k, step)
                } else {
                    old.pending_likes()
                }
            },
            CountStrategy::CacheSeeding => {
                &&& new.pending_likes() == old.pending_likes()
                &&& if step == 1 {
                    actions.len() == 1 && (actions[0] matches Action::LookupCount(q) && q@ == k)
                } else {
                    actions.len() == 0
                }
            },
        }
    }
}

/// What recording the intent `intent` for the post key `k` does: it becomes
/// the latest intent for `k`; when `payload_size` keys are then pending, all
/// of them are written in one action and, every `likes_every`-th time, the
/// pending likes follow in a second one.
pub open spec fn post_step(
    old: Pipeline,
    new: Pipeline,
    k: Seq<char>,
    intent: Option<BskyPost>,
    actions: Seq<Action>,
) -> bool {
    let c = old.settings();
    let m = old.pending_posts().insert(k, intent);
    &&& new.settings() == c
    &&& if m.len() < c.payload_size {
        &&& new.pending_posts() == m
        &&& new.pending_likes() == old.pending_likes()
        &&& new.outdated_keys() == old.outdated_keys()
        &&& new.since_likes_flush() == old.since_likes_flush()
        &&& actions.len() == 0
    } else {
        &&& new.pending_posts() == Map::<Seq<char>, Option<BskyPost>>::empty()
        &&& actions.len() >= 1
        &&& writes_posts(actions[0], m)
        &&& match c.likes_every {
            Some(n) if old.since_likes_flush() + 1 >= n => {
                &&& new.since_likes_flush() == 0
                &&& if likes_idle(c, old.pending_likes(), old.outdated_keys()) {
                    &&& actions.len() == 1
                    &&& new.pending_likes() == old.pending_likes()
                    &&& new.outdated_keys() == old.outdated_keys()
                } else {
                    &&& actions.len() == 2
                    &&& writes_likes(actions[1], c, old.pending_likes(), old.outdated_keys())
                    &&& likes_idle(c, new.pending_likes(), new.outdated_keys())
                    &&& c.strategy == CountStrategy::FunctionBatch ==> new.outdated_keys() == old.outdated_keys()
                    &&& c.strategy == CountStrategy::CacheSeeding ==> new.pending_likes() == old.pending_likes()
                }
            },
            _ => {
                &&& actions.len() == 1
                &&& new.pending_likes() == old.pending_likes()
                &&& new.outdated_keys() == old.outdated_keys()
                &&& new.since_likes_flush() == if c.likes_every is None {
                    old.since_likes_flush()
                } else {
                    old.since_likes_flush() + 1
                }
            },
        }
    }
}

/// What handling `event` does, by its kind.
pub open spec fn event_step(old: Pipeline, new: Pipeline, event: Event, actions: Seq<Action>) -> bool {
    match event {
        Event::PostUpsert(post) => post_step(old, new, post.rkey@, Some(post), actions),
        Event::PostDelete(key) => post_step(old, new, key@, None, actions),
        Event::LikeCreate(uri) => like_step(old, new, uri@, 1, actions),
        Event::LikeDelete(uri) => like_step(old, new, uri@, -1, actions),
        Event::Other => {
            &&& new.settings() == old.settings()
            &&& new.pending_posts() == old.pending_posts()
            &&& new.pending_likes() == old.pending_likes()
            &&& new.outdated_keys() == old.outdated_keys()
            &&& new.since_likes_flush() == old.since_likes_flush()
            &&& actions.len() == 0
        },
    }
}

/// `a` names the key `k` among the documents it adjusts or reads back.
pub open spec fn likes_write_names(a: Action, k: Seq<char>) -> bool {
    match a {
        Action::ApplyUpdates(ops) => exists|t: int, j: int|
            0 <= t < ops@.len() && 0 <= j < ops@[t].keys@.len() && (#[trigger] ops@[t].keys@[j])@ == k,
        Action::ReadBackCounts(chunks) => exists|i: int, j: int|
            0 <= i < chunks@.len() && 0 <= j < chunks@[i]@.len() && (#[trigger] chunks@[i]@[j])@ == k,
        _ => false,
    }
}

/// A like whose entity the store does not hold leaves no trace. Told
/// "not found", `on_lookup` emits nothing and changes nothing, so a key
/// with no pending delta and no pending read-back still has none, and the
/// next flush of likes of that state, under either strategy, names the key
/// in no operation.
pub proof fn lemma_missing_document_leaves_no_trace(p: Pipeline, k: Seq<char>, a: Action)
    requires
        config_valid(p.settings()),
        !p.pending_likes().contains_key(k),
        forall|i: int| 0 <= i < p.outdated_keys().len() ==> (#[trigger] p.outdated_keys()[i])@ != k,
        writes_likes(a, p.settings(), p.pending_likes(), p.outdated_keys()),
    ensures
        !likes_write_names(a, k),
{
    let c = p.settings();
    match c.strategy {
        CountStrategy::FunctionBatch => {
            if let Action::ApplyUpdates(ops) = a {
                let g = choose|g: Seq<DeltaGroup>|
                    groups_represent(g, p.pending_likes()) && ops_view(ops@) == plan(
                        g,
                        c.update_chunk as nat,
                    );
                assert forall|t: int, j: int|
                    0 <= t < ops@.len() && 0 <= j < ops@[t].keys@.len() implies (#[trigger] ops@[t].keys@[j])@ != k by {
                    let pl = plan(g, c.update_chunk as nat);
                    assert(ops_view(ops@)[t] == pl[t]);
                    lemma_planned_keys_come_from_groups(g, c.update_chunk as nat, t, j);
                    let i = choose|i: int| 0 <= i < g.len() && group_has(#[trigger] g[i], pl[t].0[j]@);
                    let b = choose|b: int| 0 <= b < g[i].keys@.len() && (#[trigger] g[i].keys@[b])@ == pl[t].0[j]@;
                    assert(p.pending_likes().contains_key(g[i].keys@[b]@));
                }
            }
        },
        CountStrategy::CacheSeeding => {
            if let Action::ReadBackCounts(chunks) = a {
                let s = p.outdated_keys();
                let views = chunks@.map_values(|v: Vec<String>| v@);
                let cc = c.read_chunk as int;
                let n = s.len() as int;
                assert forall|i: int, j: int|
                    0 <= i < chunks@.len() && 0 <= j < chunks@[i]@.len() implies (#[trigger] chunks@[i]@[j])@ != k by {
                    assert(views[i] == chunks@[i]@);
                    assert(views[i] == chunk_at(s, c.read_chunk as nat, i));
                    let start = i * cc;
                    assert(start < n) by (nonlinear_arith)
                        requires
                            0 <= i,
                            i < (n + cc - 1) / cc,
                            cc > 0,
                            n >= 0,
                            start == i * cc,
                    ;
                    assert(start >= 0) by (nonlinear_arith)
                        requires
                            0 <= i,
                            cc > 0,
                            start == i * cc,
                    ;
                    assert(chunks@[i]@[j] == s[start + j]);
                }
            }
        },
    }
}

} // verus!
