//! The upsert/tombstone coalescer: entity key to the latest intent for it.

use vstd::prelude::*;

verus! {

/// The documents of the upserts in `ops`, in order.
pub open spec fn upserts_of<D>(ops: Seq<(String, Option<D>)>) -> Seq<D>
    decreases ops.len(),
{
    if ops.len() == 0 {
        Seq::empty()
    } else {
        match ops.last().1 {
            Some(d) => upserts_of(ops.drop_last()).push(d),
            None => upserts_of(ops.drop_last()),
        }
    }
}

/// The keys of the tombstones in `ops`, in order.
pub open spec fn deletions_of<D>(ops: Seq<(String, Option<D>)>) -> Seq<String>
    decreases ops.len(),
{
    if ops.len() == 0 {
        Seq::empty()
    } else {
        match ops.last().1 {
            Some(_) => deletions_of(ops.drop_last()),
            None => deletions_of(ops.drop_last()).push(ops.last().0),
        }
    }
}

/// Splits drained intents into the documents to upsert and the keys to
/// delete, each in the order of `ops`.
pub fn partition_additions_and_deletions<D>(ops: Vec<(String, Option<D>)>) -> (r: (Vec<D>, Vec<String>))
    ensures
        r.0@ == upserts_of(ops@),
        r.1@ == deletions_of(ops@),
{
    let mut posts: Vec<D> = Vec::new();
    let mut deletions: Vec<String> = Vec::new();
    let mut ops = ops;
    let ghost all = ops@;
    let ghost mut taken: int = 0;
    while ops.len() > 0
        invariant
            all.len() == taken + ops@.len(),
            0 <= taken <= all.len(),
            ops@ == all.subrange(taken, all.len() as int),
            posts@ == upserts_of(all.subrange(0, taken)),
            deletions@ == deletions_of(all.subrange(0, taken)),
        decreases ops@.len(),
    {
        let (rkey, post) = ops.remove(0);
        proof {
            assert((rkey, post) == all[taken]);
            let next = all.subrange(0, taken + 1);
            assert(next.drop_last() =~= all.subrange(0, taken));
            assert(next.last() == all[taken]);
            taken = taken + 1;
        }
        match post {
            Some(post) => posts.push(post),
            None => deletions.push(rkey),
        }
    }
    proof {
        assert(all.subrange(0, all.len() as int) =~= all);
    }
    (posts, deletions)
}

/// `entries` holds each key of `m` exactly once, with its intent, and nothing else.
pub open spec fn entries_represent<D>(entries: Seq<(String, Option<D>)>, m: Map<Seq<char>, Option<D>>) -> bool {
    &&& forall|i: int| 0 <= i < entries.len() ==> {
        let e = #[trigger] entries[i];
        m.contains_key(e.0@) && m[e.0@] == e.1
    }
    &&& forall|i: int, j: int|
        0 <= i < entries.len() && 0 <= j < entries.len() && i != j
            ==> (#[trigger] entries[i]).0@ != (#[trigger] entries[j]).0@
    &&& forall|k: Seq<char>|
        #[trigger] m.contains_key(k) ==> exists|i: int|
            0 <= i < entries.len() && (#[trigger] entries[i]).0@ == k
}

/// Maps each entity key to the latest intent recorded for it within the
/// current window: a full document to upsert, or `None` for a deletion.
pub struct Coalescer<D> {
    entries: Vec<(String, Option<D>)>,
    model: Ghost<Map<Seq<char>, Option<D>>>,
}

impl<D> View for Coalescer<D> {
    type V = Map<Seq<char>, Option<D>>;

    closed spec fn view(&self) -> Map<Seq<char>, Option<D>> {
        self.model@
    }
}

/// The position of `key` among the entries, if it is there.
fn position<D>(entries: &Vec<(String, Option<D>)>, key: &String) -> (r: Option<usize>)
    ensures
        r is None ==> forall|j: int| 0 <= j < entries@.len() ==> (#[trigger] entries@[j]).0@ != key@,
        r matches Some(i) ==> i < entries@.len() && entries@[i as int].0@ == key@,
{
    let mut i: usize = 0;
    while i < entries.len()
        invariant
            i <= entries@.len(),
            forall|j: int| 0 <= j < i ==> (#[trigger] entries@[j]).0@ != key@,
        decreases entries@.len() - i,
    {
        if entries[i].0 == *key {
            return Some(i);
        }
        i = i + 1;
    }
    None
}

impl<D> Coalescer<D> {
    /// The entries hold each key once and match the model.
    pub closed spec fn wf(&self) -> bool {
        entries_represent(self.entries@, self.model@)
    }

    /// An empty coalescer.
    pub fn new() -> (r: Coalescer<D>)
        ensures
            r.wf(),
            r@ == Map::<Seq<char>, Option<D>>::empty(),
    {
        Coalescer { entries: Vec::new(), model: Ghost(Map::empty()) }
    }

    /// The number of keys with a pending intent.
    pub fn len(&self) -> (r: usize)
        requires
            self.wf(),
        ensures
            r == self@.len(),
    {
        proof {
            let keys = Seq::new(self.entries@.len(), |i: int| self.entries@[i].0@);
            assert(keys.no_duplicates());
            keys.unique_seq_to_set();
            assert(keys.to_set() =~= self@.dom()) by {
                assert forall|k: Seq<char>| self@.dom().contains(k) implies keys.to_set().contains(k) by {
                    let i = choose|i: int| 0 <= i < self.entries@.len() && (#[trigger] self.entries@[i]).0@ == k;
                    assert(keys[i] == k);
                }
                assert forall|k: Seq<char>| keys.to_set().contains(k) implies self@.dom().contains(k) by {
                    let i = choose|i: int| 0 <= i < keys.len() && keys[i] == k;
                    assert(self.entries@[i].0@ == k);
                }
            }
        }
        self.entries.len()
    }

    /// Records `intent` as the latest for `key`, replacing any earlier one.
    pub fn record(&mut self, key: String, intent: Option<D>)
        requires
            old(self).wf(),
        ensures
            final(self).wf(),
            final(self)@ == old(self)@.insert(key@, intent),
    {
        let ghost m = self.model@;
        let ghost old_entries = self.entries@;
        let ghost k = key@;
        let found = position(&self.entries, &key);
        let ghost new_model = m.insert(k, intent);
        if let Some(i) = found {
            self.entries[i] = (key, intent);
            self.model = Ghost(new_model);
            proof {
                assert forall|q: Seq<char>| #[trigger] new_model.contains_key(q) implies exists|j: int|
                    0 <= j < self.entries@.len() && (#[trigger] self.entries@[j]).0@ == q by {
                    if q == k {
                        assert(self.entries@[i as int].0@ == q);
                    } else {
                        let j = choose|j: int| 0 <= j < old_entries.len() && (#[trigger] old_entries[j]).0@ == q;
                        assert(self.entries@[j].0@ == q);
                    }
                }
            }
        } else {
            self.entries.push((key, intent));
            self.model = Ghost(new_model);
            proof {
                assert forall|q: Seq<char>| #[trigger] new_model.contains_key(q) implies exists|j: int|
                    0 <= j < self.entries@.len() && (#[trigger] self.entries@[j]).0@ == q by {
                    if q == k {
                        assert(self.entries@[old_entries.len() as int].0@ == q);
                    } else {
                        let j = choose|j: int| 0 <= j < old_entries.len() && (#[trigger] old_entries[j]).0@ == q;
                        assert(self.entries@[j].0@ == q);
                    }
                }
            }
        }
    }

    /// Empties the coalescer and hands back its intents, one per key.
    pub fn drain(&mut self) -> (entries: Vec<(String, Option<D>)>)
        requires
            old(self).wf(),
        ensures
            final(self).wf(),
            final(self)@ == Map::<Seq<char>, Option<D>>::empty(),
            entries_represent(entries@, old(self)@),
    {
        let mut entries: Vec<(String, Option<D>)> = Vec::new();
        std::mem::swap(&mut entries, &mut self.entries);
        self.model = Ghost(Map::empty());
        entries
    }
}

/// The map after recording each intent of `intents`, in order, for `k`.
pub open spec fn record_all<D>(m: Map<Seq<char>, Option<D>>, k: Seq<char>, intents: Seq<Option<D>>) -> Map<
    Seq<char>,
    Option<D>,
>
    decreases intents.len(),
{
    if intents.len() == 0 {
        m
    } else {
        record_all(m, k, intents.drop_last()).insert(k, intents.last())
    }
}

/// Each drained intent turns into exactly one write: a document to upsert or
/// a key to delete.
pub proof fn lemma_one_write_per_intent<D>(ops: Seq<(String, Option<D>)>)
    ensures
        upserts_of(ops).len() + deletions_of(ops).len() == ops.len(),
    decreases ops.len(),
{
    if ops.len() > 0 {
        lemma_one_write_per_intent(ops.drop_last());
    }
}

/// Only the last intent recorded for a key within a window survives: the
/// drain holds that key exactly once, with that intent, and so writes it
/// once, as a deletion when the last intent was one and as an upsert of the
/// last document otherwise.
pub proof fn lemma_last_intent_wins<D>(
    m: Map<Seq<char>, Option<D>>,
    k: Seq<char>,
    intents: Seq<Option<D>>,
    entries: Seq<(String, Option<D>)>,
)
    requires
        intents.len() > 0,
        entries_represent(entries, record_all(m, k, intents)),
    ensures
        exists|i: int| 0 <= i < entries.len() && (#[trigger] entries[i]).0@ == k && entries[i].1 == intents.last(),
        forall|i: int, j: int|
            0 <= i < entries.len() && 0 <= j < entries.len() && (#[trigger] entries[i]).0@ == k
                && (#[trigger] entries[j]).0@ == k ==> i == j,
        upserts_of(entries).len() + deletions_of(entries).len() == entries.len(),
{
    let after = record_all(m, k, intents);
    assert(after.contains_key(k));
    let i = choose|i: int| 0 <= i < entries.len() && (#[trigger] entries[i]).0@ == k;
    assert(entries[i].1 == after[k]);
    lemma_one_write_per_intent(entries);
}

} // verus!
