//! The signed delta accumulator: entity key to net pending change.

use vstd::prelude::*;

verus! {

/// The pending delta of `k` in `m`, zero when the key is absent.
pub open spec fn delta_of(m: Map<Seq<char>, int>, k: Seq<char>) -> int {
    if m.contains_key(k) {
        m[k]
    } else {
        0
    }
}

/// The map after adding `step` to the delta of `k`; a key whose delta
/// reaches zero leaves the map.
pub open spec fn bumped(m: Map<Seq<char>, int>, k: Seq<char>, step: int) -> Map<Seq<char>, int> {
    if delta_of(m, k) + step == 0 {
        m.remove(k)
    } else {
        m.insert(k, delta_of(m, k) + step)
    }
}

/// No key of the map holds a zero delta.
pub open spec fn zero_free(m: Map<Seq<char>, int>) -> bool {
    forall|k: Seq<char>| #[trigger] m.contains_key(k) ==> m[k] != 0
}

/// Every delta of the map fits in an `i64`.
pub open spec fn fits_i64(m: Map<Seq<char>, int>) -> bool {
    forall|k: Seq<char>|
        #[trigger] m.contains_key(k) ==> i64::MIN <= m[k] && m[k] <= i64::MAX
}

/// Keys sharing one pending delta.
pub struct DeltaGroup {
    pub delta: i64,
    pub keys: Vec<String>,
}

/// `k` is one of the keys of `g`.
pub open spec fn group_has(g: DeltaGroup, k: Seq<char>) -> bool {
    exists|a: int| 0 <= a < g.keys@.len() && (#[trigger] g.keys@[a])@ == k
}

/// `groups` holds each key of `m` exactly once, under its delta, with one
/// group per distinct delta and no empty group.
pub open spec fn groups_represent(groups: Seq<DeltaGroup>, m: Map<Seq<char>, int>) -> bool {
    &&& forall|i: int| 0 <= i < groups.len() ==> (#[trigger] groups[i]).keys@.len() > 0
    &&& forall|i: int, j: int|
        0 <= i < groups.len() && 0 <= j < groups.len() && i != j ==> (#[trigger] groups[i]).delta
            != (#[trigger] groups[j]).delta
    &&& forall|i: int, a: int, b: int|
        0 <= i < groups.len() && 0 <= a < groups[i].keys@.len() && 0 <= b < groups[i].keys@.len()
            && a != b ==> (#[trigger] groups[i].keys@[a])@ != (#[trigger] groups[i].keys@[b])@
    &&& forall|i: int, a: int|
        0 <= i < groups.len() && 0 <= a < groups[i].keys@.len() ==> {
            let k = (#[trigger] groups[i].keys@[a])@;
            m.contains_key(k) && m[k] == groups[i].delta
        }
    &&& forall|k: Seq<char>|
        #[trigger] m.contains_key(k) ==> exists|i: int|
            0 <= i < groups.len() && group_has(#[trigger] groups[i], k)
}

/// Maps each entity key to the signed net change since the last drain.
/// A key whose change returns to zero is not held.
pub struct DeltaAccumulator {
    entries: Vec<(String, i64)>,
    model: Ghost<Map<Seq<char>, int>>,
}

impl View for DeltaAccumulator {
    type V = Map<Seq<char>, int>;

    closed spec fn view(&self) -> Map<Seq<char>, int> {
        self.model@
    }
}

impl DeltaAccumulator {
    /// The entries hold each key once, with a non-zero delta, and match the model.
    pub closed spec fn wf(&self) -> bool {
        &&& forall|i: int|
            0 <= i < self.entries@.len() ==> {
                let e = #[trigger] self.entries@[i];
                self.model@.contains_key(e.0@) && self.model@[e.0@] == e.1 as int && e.1 != 0
            }
        &&& forall|i: int, j: int|
            0 <= i < self.entries@.len() && 0 <= j < self.entries@.len() && i != j
                ==> (#[trigger] self.entries@[i]).0@ != (#[trigger] self.entries@[j]).0@
        &&& forall|k: Seq<char>|
            #[trigger] self.model@.contains_key(k) ==> exists|i: int|
                0 <= i < self.entries@.len() && (#[trigger] self.entries@[i]).0@ == k
    }

    /// The well-formed accumulator has no zero delta and every delta fits in an `i64`.
    pub proof fn lemma_wf_bounds(&self)
        requires
            self.wf(),
        ensures
            zero_free(self@),
            fits_i64(self@),
    {
        assert forall|k: Seq<char>| #[trigger] self@.contains_key(k) implies self@[k] != 0
            && i64::MIN <= self@[k] && self@[k] <= i64::MAX by {
            let i = choose|i: int| 0 <= i < self.entries@.len() && (#[trigger] self.entries@[i]).0@ == k;
            assert(self.entries@[i].0@ == k);
        }
    }

    /// An empty accumulator.
    pub fn new() -> (r: DeltaAccumulator)
        ensures
            r.wf(),
            r@ == Map::<Seq<char>, int>::empty(),
    {
        DeltaAccumulator { entries: Vec::new(), model: Ghost(Map::empty()) }
    }

    /// The number of keys with a pending delta.
    pub fn len(&self) -> (r: usize)
        requires
            self.wf(),
        ensures
            r == self@.len(),
    {
        proof {
            self.lemma_len();
        }
        self.entries.len()
    }

    /// The entries and the model hold the same number of keys.
    proof fn lemma_len(&self)
        requires
            self.wf(),
        ensures
            self@.len() == self.entries@.len(),
    {
        let keys = Seq::new(self.entries@.len(), |i: int| self.entries@[i].0@);
        assert(keys.no_duplicates());
        keys.unique_seq_to_set();
        assert(keys.to_set() =~= self@.dom()) by {
            assert forall|k: Seq<char>| self@.dom().contains(k) implies keys.to_set().contains(k) by {
                let i = choose|i: int| 0 <= i < self.entries@.len() && (#[trigger] self.entries@[i]).0@ == k;
                assert(keys[i] == k);
            }
            assert forall|k: Seq<char>| keys.to_set().contains(k) implies self@.dom().contains(k) by {
                let i = choose|i: int| 0 <= i < keys.len() && keys[i] == k;
                assert(self.entries@[i].0@ == k);
            }
        }
    }

    /// The position of `key` among the entries, if it is held.
    fn find(&self, key: &String) -> (r: Option<usize>)
        requires
            self.wf(),
        ensures
            r is None ==> !self@.contains_key(key@),
            r matches Some(i) ==> i < self.entries@.len() && self.entries@[i as int].0@ == key@,
    {
        let mut i: usize = 0;
        while i < self.entries.len()
            invariant
                self.wf(),
                i <= self.entries@.len(),
                forall|j: int| 0 <= j < i ==> (#[trigger] self.entries@[j]).0@ != key@,
            decreases self.entries@.len() - i,
        {
            if self.entries[i].0 == *key {
                return Some(i);
            }
            i = i + 1;
        }
        None
    }

    /// The pending delta of `key`, zero when it has none.
    pub fn delta(&self, key: &String) -> (r: i64)
        requires
            self.wf(),
        ensures
            r as int == delta_of(self@, key@),
    {
        match self.find(key) {
            Some(i) => self.entries[i].1,
            None => 0,
        }
    }

    /// Adds `step` (one up or one down) to the delta of `key`. A key whose
    /// delta comes back to zero is removed. Returns false, changing nothing,
    /// when the new delta would not fit in an `i64`.
    pub fn bump(&mut self, key: &String, step: i64) -> (applied: bool)
        requires
            old(self).wf(),
            step == 1 || step == -1,
        ensures
            final(self).wf(),
            applied == (i64::MIN <= delta_of(old(self)@, key@) + step <= i64::MAX),
            applied ==> final(self)@ == bumped(old(self)@, key@, step as int),
            !applied ==> final(self)@ == old(self)@,
    {
        match self.find(key) {
            None => {
                let ghost m = self.model@;
                let ghost old_entries = self.entries@;
                self.entries.push((key.clone(), step));
                self.model = Ghost(m.insert(key@, step as int));
                assert forall|k: Seq<char>| #[trigger] self.model@.contains_key(k) implies exists|i: int|
                    0 <= i < self.entries@.len() && (#[trigger] self.entries@[i]).0@ == k by {
                    if k == key@ {
                        assert(self.entries@[self.entries@.len() - 1].0@ == k);
                    } else {
                        assert(m.contains_key(k));
                        let i = choose|i: int| 0 <= i < old_entries.len() && (#[trigger] old_entries[i]).0@ == k;
                        assert(self.entries@[i].0@ == k);
                    }
                }
                true
            },
            Some(i) => {
                let cur = self.entries[i].1;
                let next = match cur.checked_add(step) {
                    Some(n) => n,
                    None => {
                        return false;
                    },
                };
                let ghost m = self.model@;
                let ghost old_entries = self.entries@;
                if next == 0 {
                    self.entries.remove(i);
                    self.model = Ghost(m.remove(key@));
                    assert forall|k: Seq<char>| #[trigger] self.model@.contains_key(k) implies exists|j: int|
                        0 <= j < self.entries@.len() && (#[trigger] self.entries@[j]).0@ == k by {
                        let j = choose|j: int| 0 <= j < old_entries.len() && (#[trigger] old_entries[j]).0@ == k;
                        if j < i {
                            assert(self.entries@[j].0@ == k);
                        } else {
                            assert(j != i);
                            assert(self.entries@[j - 1].0@ == k);
                        }
                    }
                } else {
                    let k = self.entries[i].0.clone();
                    self.entries[i] = (k, next);
                    self.model = Ghost(m.insert(key@, next as int));
                    assert forall|k: Seq<char>| #[trigger] self.model@.contains_key(k) implies exists|j: int|
                        0 <= j < self.entries@.len() && (#[trigger] self.entries@[j]).0@ == k by {
                        if k != key@ {
                            let j = choose|j: int| 0 <= j < old_entries.len() && (#[trigger] old_entries[j]).0@ == k;
                            assert(self.entries@[j].0@ == k);
                        } else {
                            assert(self.entries@[i as int].0@ == k);
                        }
                    }
                }
                true
            },
        }
    }

    /// Empties the accumulator and hands back its keys grouped by delta:
    /// one group per distinct delta, each key once, under its own delta.
    pub fn drain(&mut self) -> (groups: Vec<DeltaGroup>)
        requires
            old(self).wf(),
        ensures
            final(self).wf(),
            final(self)@ == Map::<Seq<char>, int>::empty(),
            groups_represent(groups@, old(self)@),
            forall|i: int| 0 <= i < groups@.len() ==> (#[trigger] groups@[i]).delta != 0,
    {
        proof {
            self.lemma_wf_bounds();
        }
        let mut entries: Vec<(String, i64)> = Vec::new();
        std::mem::swap(&mut entries, &mut self.entries);
        let ghost m = self.model@;
        self.model = Ghost(Map::empty());
        let mut groups: Vec<DeltaGroup> = Vec::new();
        let ghost mut seen: Map<Seq<char>, int> = Map::empty();
        let mut i: usize = 0;
        while i < entries.len()
            invariant
                self.wf(),
                self@ == Map::<Seq<char>, int>::empty(),
                i <= entries@.len(),
                forall|a: int|
                    0 <= a < entries@.len() ==> {
                        let e = #[trigger] entries@[a];
                        m.contains_key(e.0@) && m[e.0@] == e.1 as int && e.1 != 0
                    },
                forall|a: int, b: int|
                    0 <= a < entries@.len() && 0 <= b < entries@.len() && a != b
                        ==> (#[trigger] entries@[a]).0@ != (#[trigger] entries@[b]).0@,
                forall|k: Seq<char>|
                    #[trigger] m.contains_key(k) ==> exists|a: int|
                        0 <= a < entries@.len() && (#[trigger] entries@[a]).0@ == k,
                groups_represent(groups@, seen),
                forall|k: Seq<char>|
                    #[trigger] seen.contains_key(k) ==> m.contains_key(k) && seen[k] == m[k],
                forall|k: Seq<char>|
                    #[trigger] seen.contains_key(k) ==> exists|a: int|
                        0 <= a < i && (#[trigger] entries@[a]).0@ == k,
                forall|a: int| 0 <= a < i ==> seen.contains_key((#[trigger] entries@[a]).0@),
            decreases entries@.len() - i,
        {
            let key = entries[i].0.clone();
            let d = entries[i].1;
            proof {
                if seen.contains_key(key@) {
                    let a = choose|a: int| 0 <= a < i && (#[trigger] entries@[a]).0@ == key@;
                    assert(entries@[a].0@ != entries@[i as int].0@);
                }
            }
            let ghost old_groups = groups@;
            let ghost old_seen = seen;
            match group_index(&groups, d) {
                Some(j) => {
                    groups[j].keys.push(key);
                    proof {
                        seen = seen.insert(key@, d as int);
                        lemma_add_to_group(old_groups, old_seen, groups@, j as int, key@, d as int);
                    }
                },
                None => {
                    let mut keys: Vec<String> = Vec::new();
                    keys.push(key);
                    groups.push(DeltaGroup { delta: d, keys });
                    proof {
                        assert(groups@.drop_last() =~= old_groups);
                        seen = seen.insert(key@, d as int);
                        lemma_new_group(old_groups, old_seen, groups@, key@, d as int);
                    }
                },
            }
            proof {
                assert forall|k: Seq<char>| #[trigger] seen.contains_key(k) implies exists|a: int|
                    0 <= a < i + 1 && (#[trigger] entries@[a]).0@ == k by {
                    if k == key@ {
                        assert(entries@[i as int].0@ == k);
                    } else {
                        let a = choose|a: int| 0 <= a < i && (#[trigger] entries@[a]).0@ == k;
                        assert(entries@[a].0@ == k);
                    }
                }
            }
            i = i + 1;
        }
        proof {
            assert(seen =~= m) by {
                assert forall|k: Seq<char>| m.contains_key(k) implies seen.contains_key(k) by {
                    let a = choose|a: int| 0 <= a < entries@.len() && (#[trigger] entries@[a]).0@ == k;
                    assert(seen.contains_key(entries@[a].0@));
                }
            }
            assert forall|i: int| 0 <= i < groups@.len() implies (#[trigger] groups@[i]).delta != 0 by {
                assert(m.contains_key(groups@[i].keys@[0]@));
            }
        }
        groups
    }
}

/// The position of the group holding delta `d`, if any.
fn group_index(groups: &Vec<DeltaGroup>, d: i64) -> (r: Option<usize>)
    ensures
        r is None ==> forall|j: int| 0 <= j < groups@.len() ==> (#[trigger] groups@[j]).delta != d,
        r matches Some(j) ==> j < groups@.len() && groups@[j as int].delta == d,
{
    let mut j: usize = 0;
    while j < groups.len()
        invariant
            j <= groups@.len(),
            forall|g: int| 0 <= g < j ==> (#[trigger] groups@[g]).delta != d,
        decreases groups@.len() - j,
    {
        if groups[j].delta == d {
            return Some(j);
        }
        j = j + 1;
    }
    None
}

/// Adding a new key to the group of its delta keeps the grouping exact.
proof fn lemma_add_to_group(
    groups: Seq<DeltaGroup>,
    seen: Map<Seq<char>, int>,
    next: Seq<DeltaGroup>,
    j: int,
    k: Seq<char>,
    d: int,
)
    requires
        groups_represent(groups, seen),
        !seen.contains_key(k),
        0 <= j < groups.len(),
        groups[j].delta == d,
        next.len() == groups.len(),
        next[j].delta == d,
        next[j].keys@ == groups[j].keys@.push(next[j].keys@.last()),
        next[j].keys@.last()@ == k,
        forall|g: int| 0 <= g < groups.len() && g != j ==> next[g] == groups[g],
    ensures
        groups_represent(next, seen.insert(k, d)),
{
    let s2 = seen.insert(k, d);
    assert forall|i: int, a: int|
        0 <= i < next.len() && 0 <= a < next[i].keys@.len() implies {
            let q = (#[trigger] next[i].keys@[a])@;
            s2.contains_key(q) && s2[q] == next[i].delta
        } by {
        if i == j && a == groups[j].keys@.len() {
        } else {
            assert(next[i].keys@[a] == groups[i].keys@[a]);
        }
    }
    assert forall|i: int, a: int, b: int|
        0 <= i < next.len() && 0 <= a < next[i].keys@.len() && 0 <= b < next[i].keys@.len()
            && a != b implies (#[trigger] next[i].keys@[a])@ != (#[trigger] next[i].keys@[b])@ by {
        if i == j {
            let n = groups[j].keys@.len() as int;
            if a < n {
                assert(seen.contains_key(groups[i].keys@[a]@));
            }
            if b < n {
                assert(seen.contains_key(groups[i].keys@[b]@));
            }
        }
    }
    assert forall|q: Seq<char>| #[trigger] s2.contains_key(q) implies exists|i: int|
        0 <= i < next.len() && group_has(#[trigger] next[i], q) by {
        if q == k {
            assert(next[j].keys@[next[j].keys@.len() - 1]@ == q);
            assert(group_has(next[j], q));
        } else {
            let i = choose|i: int| 0 <= i < groups.len() && group_has(#[trigger] groups[i], q);
            let a = choose|a: int| 0 <= a < groups[i].keys@.len() && (#[trigger] groups[i].keys@[a])@ == q;
            assert(next[i].keys@[a] == groups[i].keys@[a]);
            assert(group_has(next[i], q));
        }
    }
}

/// Opening a group for a new key with a new delta keeps the grouping exact.
proof fn lemma_new_group(
    groups: Seq<DeltaGroup>,
    seen: Map<Seq<char>, int>,
    next: Seq<DeltaGroup>,
    k: Seq<char>,
    d: int,
)
    requires
        groups_represent(groups, seen),
        !seen.contains_key(k),
        d != 0,
        forall|j: int| 0 <= j < groups.len() ==> (#[trigger] groups[j]).delta != d,
        next.len() == groups.len() + 1,
        next.drop_last() == groups,
        next.last().delta == d,
        next.last().keys@.len() == 1,
        next.last().keys@[0]@ == k,
    ensures
        groups_represent(next, seen.insert(k, d)),
{
    let s2 = seen.insert(k, d);
    assert forall|i: int| 0 <= i < groups.len() implies next[i] == groups[i] by {
        assert(next[i] == next.drop_last()[i]);
    }
    assert forall|q: Seq<char>| #[trigger] s2.contains_key(q) implies exists|i: int|
        0 <= i < next.len() && group_has(#[trigger] next[i], q) by {
        if q == k {
            assert(next[groups.len() as int].keys@[0]@ == q);
            assert(group_has(next[groups.len() as int], q));
        } else {
            let i = choose|i: int| 0 <= i < groups.len() && group_has(#[trigger] groups[i], q);
            assert(next[i] == groups[i]);
        }
    }
}

/// The map after applying each bump of `events`, a key and a step, in order.
pub open spec fn apply_bumps(m: Map<Seq<char>, int>, events: Seq<(Seq<char>, int)>) -> Map<
    Seq<char>,
    int,
>
    decreases events.len(),
{
    if events.len() == 0 {
        m
    } else {
        bumped(apply_bumps(m, events.drop_last()), events.last().0, events.last().1)
    }
}

/// The sum of the steps of `events` that bump `k`.
pub open spec fn net_of(events: Seq<(Seq<char>, int)>, k: Seq<char>) -> int
    decreases events.len(),
{
    if events.len() == 0 {
        0
    } else {
        net_of(events.drop_last(), k) + if events.last().0 == k {
            events.last().1
        } else {
            0
        }
    }
}

/// After any bumps, each key holds its earlier delta plus the sum of its
/// own steps, and no key holds zero.
pub proof fn lemma_apply_bumps_net(m: Map<Seq<char>, int>, events: Seq<(Seq<char>, int)>)
    requires
        zero_free(m),
    ensures
        zero_free(apply_bumps(m, events)),
        forall|q: Seq<char>|
            #[trigger] delta_of(apply_bumps(m, events), q) == delta_of(m, q) + net_of(events, q),
    decreases events.len(),
{
    if events.len() > 0 {
        lemma_apply_bumps_net(m, events.drop_last());
        let before = apply_bumps(m, events.drop_last());
        let after = apply_bumps(m, events);
        assert forall|q: Seq<char>| #[trigger] after.contains_key(q) implies after[q] != 0 by {
            if q != events.last().0 {
                assert(before.contains_key(q));
            }
        }
        assert forall|q: Seq<char>|
            #[trigger] delta_of(after, q) == delta_of(m, q) + net_of(events, q) by {
            assert(delta_of(before, q) == delta_of(m, q) + net_of(events.drop_last(), q));
        }
    }
}

/// Two maps without zero deltas that agree on every key's delta are equal.
proof fn lemma_same_deltas(a: Map<Seq<char>, int>, b: Map<Seq<char>, int>)
    requires
        zero_free(a),
        zero_free(b),
        forall|q: Seq<char>| #[trigger] delta_of(a, q) == delta_of(b, q),
    ensures
        a == b,
{
    assert forall|q: Seq<char>| a.contains_key(q) <==> b.contains_key(q) by {
        assert(delta_of(a, q) == delta_of(b, q));
    }
    assert forall|q: Seq<char>| a.contains_key(q) implies a[q] == b[q] by {
        assert(delta_of(a, q) == delta_of(b, q));
    }
    assert(a =~= b);
}

/// Taking one bump out of a sequence takes its step out of its key's net.
proof fn lemma_net_remove(s: Seq<(Seq<char>, int)>, p: int, q: Seq<char>)
    requires
        0 <= p < s.len(),
    ensures
        net_of(s.remove(p), q) + (if s[p].0 == q {
            s[p].1
        } else {
            0
        }) == net_of(s, q),
    decreases s.len(),
{
    if p == s.len() - 1 {
        assert(s.remove(p) =~= s.drop_last());
    } else {
        lemma_net_remove(s.drop_last(), p, q);
        assert(s.remove(p).drop_last() =~= s.drop_last().remove(p));
        assert(s.remove(p).last() == s.last());
    }
}

/// Sequences with the same bumps, in any order, give each key the same net.
proof fn lemma_net_permutation(s: Seq<(Seq<char>, int)>, t: Seq<(Seq<char>, int)>, q: Seq<char>)
    requires
        s.to_multiset() == t.to_multiset(),
    ensures
        net_of(s, q) == net_of(t, q),
    decreases s.len(),
{
    broadcast use vstd::seq_lib::group_to_multiset_ensures;
    broadcast use vstd::multiset::group_multiset_axioms;

    if s.len() == 0 {
        assert(t.to_multiset().len() == 0);
        assert(t.len() == 0);
    } else {
        let x = s.last();
        let rest = s.drop_last();
        assert(s == rest.push(x));
        assert(rest.to_multiset() =~= s.to_multiset().remove(x));
        assert(s.to_multiset().count(x) > 0);
        assert(t.contains(x));
        let p = choose|p: int| 0 <= p < t.len() && t[p] == x;
        assert(t.remove(p).to_multiset() == t.to_multiset().remove(x));
        lemma_net_permutation(rest, t.remove(p), q);
        lemma_net_remove(t, p, q);
    }
}

/// The accumulated deltas do not depend on the order in which bumps arrive,
/// whichever keys they touch: the same bumps in another order leave the
/// same map, in which each key holds its earlier delta plus its own steps.
pub proof fn lemma_arrival_order_free(
    m: Map<Seq<char>, int>,
    events: Seq<(Seq<char>, int)>,
    reordered: Seq<(Seq<char>, int)>,
)
    requires
        zero_free(m),
        events.to_multiset() == reordered.to_multiset(),
    ensures
        apply_bumps(m, events) == apply_bumps(m, reordered),
        forall|q: Seq<char>|
            #[trigger] delta_of(apply_bumps(m, events), q) == delta_of(m, q) + net_of(events, q),
{
    lemma_apply_bumps_net(m, events);
    lemma_apply_bumps_net(m, reordered);
    assert forall|q: Seq<char>|
        #[trigger] delta_of(apply_bumps(m, events), q) == delta_of(apply_bumps(m, reordered), q) by {
        lemma_net_permutation(events, reordered, q);
    }
    lemma_same_deltas(apply_bumps(m, events), apply_bumps(m, reordered));
}

/// A key whose bumps since the last drain net to zero is held by no group
/// of that drain, whatever other keys were bumped in between.
pub proof fn lemma_zero_net_key_not_drained(
    m: Map<Seq<char>, int>,
    k: Seq<char>,
    events: Seq<(Seq<char>, int)>,
    groups: Seq<DeltaGroup>,
)
    requires
        zero_free(m),
        delta_of(m, k) + net_of(events, k) == 0,
        groups_represent(groups, apply_bumps(m, events)),
    ensures
        forall|i: int| 0 <= i < groups.len() ==> !group_has(#[trigger] groups[i], k),
{
    lemma_apply_bumps_net(m, events);
    let after = apply_bumps(m, events);
    assert(delta_of(after, k) == 0);
    assert(!after.contains_key(k));
    assert forall|i: int| 0 <= i < groups.len() implies !group_has(#[trigger] groups[i], k) by {
        if group_has(groups[i], k) {
            let a = choose|a: int| 0 <= a < groups[i].keys@.len() && (#[trigger] groups[i].keys@[a])@ == k;
            assert(after.contains_key(groups[i].keys@[a]@));
        }
    }
}

} // verus!
