//! Turning drained delta groups into batched partial-update operations.

use vstd::prelude::*;
use crate::accumulator::{
    apply_bumps,
    delta_of,
    group_has,
    groups_represent,
    lemma_zero_net_key_not_drained,
    net_of,
    zero_free,
    DeltaGroup,
};
use crate::chunks::{chunk_at, chunk_count, chunk_keys, chunked};

verus! {

/// A relative or absolute change to the counter of a document.
#[derive(PartialEq, Eq, Structural, Clone, Copy, Debug)]
pub enum Adjustment {
    /// Add the amount to the stored counter, a missing counter counting as zero.
    Increase(u64),
    /// Take the amount from the stored counter, a missing counter counting as zero.
    Decrease(u64),
    /// Replace the stored counter by the amount.
    Absolute(u64),
}

/// The adjustment that carries a non-zero pending delta.
pub open spec fn adjustment_for(delta: int) -> Adjustment {
    if delta > 0 {
        Adjustment::Increase(delta as u64)
    } else {
        Adjustment::Decrease((-delta) as u64)
    }
}

/// A stored counter, zero when there is none.
pub open spec fn stored_or_zero(stored: Option<int>) -> int {
    match stored {
        Some(v) => v,
        None => 0,
    }
}

/// The counter after `adj` is applied to a stored counter, if any.
pub open spec fn adjusted(adj: Adjustment, stored: Option<int>) -> int {
    let base = stored_or_zero(stored);
    match adj {
        Adjustment::Increase(n) => base + n,
        Adjustment::Decrease(n) => base - n,
        Adjustment::Absolute(n) => n as int,
    }
}

/// The adjustment that carries `delta` onto a stored counter.
pub fn adjustment_of(delta: i64) -> (r: Adjustment)
    requires
        delta != 0,
    ensures
        r == adjustment_for(delta as int),
        forall|stored: Option<int>| #[trigger] adjusted(r, stored) == stored_or_zero(stored) + delta,
{
    if delta > 0 {
        Adjustment::Increase(delta as u64)
    } else {
        let magnitude: u64 = ((-(delta + 1)) as u64) + 1;
        Adjustment::Decrease(magnitude)
    }
}

/// One batched operation: the documents whose key is among `keys` get
/// `adjustment` applied to their counter.
pub struct UpdateOperation {
    pub keys: Vec<String>,
    pub adjustment: Adjustment,
}

/// A character that the filter syntax reserves.
pub open spec fn reserved_char(c: char) -> bool {
    c == '"' || c == '\\' || c == ',' || c == '[' || c == ']' || c == '\''
}

/// A key that can stand in a filter as it is: not empty, no reserved character.
pub open spec fn plain_key(k: Seq<char>) -> bool {
    k.len() > 0 && forall|i: int| 0 <= i < k.len() ==> !reserved_char(#[trigger] k[i])
}

/// The text before the quoted keys of a filter.
pub open spec fn filter_prefix() -> Seq<char> {
    seq!['r', 'k', 'e', 'y', ' ', 'I', 'N', ' ', '[']
}

/// A key in double quotes.
pub open spec fn quoted(k: Seq<char>) -> Seq<char> {
    seq!['"'] + k + seq!['"']
}

/// The quoted keys, separated by a comma and a space.
pub open spec fn joined(keys: Seq<String>) -> Seq<char>
    decreases keys.len(),
{
    if keys.len() == 0 {
        Seq::empty()
    } else if keys.len() == 1 {
        quoted(keys[0]@)
    } else {
        joined(keys.drop_last()) + seq![',', ' '] + quoted(keys.last()@)
    }
}

/// The filter that selects the documents whose key is one of `keys`.
pub open spec fn filter_text(keys: Seq<String>) -> Seq<char> {
    filter_prefix() + joined(keys) + seq![']']
}

/// `k` is free of the characters that the filter syntax reserves.
pub fn is_plain_key(k: &str) -> (r: bool)
    ensures
        r == plain_key(k@),
{
    let n = k.unicode_len();
    if n == 0 {
        return false;
    }
    let mut i: usize = 0;
    while i < n
        invariant
            n == k@.len(),
            i <= n,
            forall|j: int| 0 <= j < i ==> !reserved_char(#[trigger] k@[j]),
        decreases n - i,
    {
        let c = k.get_char(i);
        if c == '"' || c == '\\' || c == ',' || c == '[' || c == ']' || c == '\'' {
            return false;
        }
        i = i + 1;
    }
    true
}

impl UpdateOperation {
    /// The filter that selects the documents of this operation.
    pub fn filter(&self) -> (r: String)
        ensures
            r@ == filter_text(self.keys@),
    {
        let mut text = String::from_str("rkey IN [");
        proof {
            reveal_strlit("rkey IN [");
            assert(text@ =~= filter_prefix());
        }
        let mut i: usize = 0;
        while i < self.keys.len()
            invariant
                i <= self.keys@.len(),
                text@ == filter_prefix() + joined(self.keys@.subrange(0, i as int)),
            decreases self.keys@.len() - i,
        {
            if i > 0 {
                text.append(", ");
            }
            text.append("\"");
            text.append(self.keys[i].as_str());
            text.append("\"");
            proof {
                reveal_strlit(", ");
                reveal_strlit("\"");
                let pre = self.keys@.subrange(0, i as int);
                let next = self.keys@.subrange(0, i + 1);
                assert(next.drop_last() =~= pre);
                assert(next.last() == self.keys@[i as int]);
                if i == 0 {
                    assert(pre =~= Seq::<String>::empty());
                    assert(text@ =~= filter_prefix() + joined(next));
                } else {
                    assert(text@ =~= filter_prefix() + joined(next));
                }
            }
            i = i + 1;
        }
        text.append("]");
        proof {
            reveal_strlit("]");
            assert(self.keys@.subrange(0, self.keys@.len() as int) =~= self.keys@);
            assert(text@ =~= filter_text(self.keys@));
        }
        text
    }
}

/// The operations that one group yields, as keys and adjustment.
pub open spec fn group_plan(g: DeltaGroup, c: nat) -> Seq<(Seq<String>, Adjustment)> {
    Seq::new(
        chunk_count(g.keys@.len(), c),
        |i: int| (chunk_at(g.keys@, c, i), adjustment_for(g.delta as int)),
    )
}

/// The operations that a drain yields, group after group.
pub open spec fn plan(groups: Seq<DeltaGroup>, c: nat) -> Seq<(Seq<String>, Adjustment)>
    decreases groups.len(),
{
    if groups.len() == 0 {
        Seq::empty()
    } else {
        plan(groups.drop_last(), c) + group_plan(groups.last(), c)
    }
}

/// The keys and adjustment of each operation.
pub open spec fn ops_view(ops: Seq<UpdateOperation>) -> Seq<(Seq<String>, Adjustment)> {
    ops.map_values(|o: UpdateOperation| (o.keys@, o.adjustment))
}

/// The operations for one group: its keys in chunks of at most `chunk_size`,
/// each with the adjustment that carries the group's delta.
pub fn translate_group(group: &DeltaGroup, chunk_size: usize) -> (ops: Vec<UpdateOperation>)
    requires
        chunk_size > 0,
        group.delta != 0,
    ensures
        ops_view(ops@) == group_plan(*group, chunk_size as nat),
{
    let mut chunks = chunk_keys(&group.keys, chunk_size);
    let ghost views = chunks@.map_values(|v: Vec<String>| v@);
    let adjustment = adjustment_of(group.delta);
    let mut ops: Vec<UpdateOperation> = Vec::new();
    let mut i: usize = 0;
    while i < chunks.len()
        invariant
            i <= chunks@.len(),
            chunks@.len() == views.len(),
            chunked(group.keys@, chunk_size as nat, views),
            forall|j: int| i <= j < chunks@.len() ==> (#[trigger] chunks@[j])@ == views[j],
            adjustment == adjustment_for(group.delta as int),
            ops_view(ops@) == group_plan(*group, chunk_size as nat).subrange(0, i as int),
        decreases chunks@.len() - i,
    {
        let mut keys: Vec<String> = Vec::new();
        std::mem::swap(&mut keys, &mut chunks[i]);
        let ghost before = ops@;
        ops.push(UpdateOperation { keys, adjustment });
        proof {
            assert(keys@ == views[i as int]);
            assert(views[i as int] == chunk_at(group.keys@, chunk_size as nat, i as int));
            let gp = group_plan(*group, chunk_size as nat);
            assert(views.len() == chunk_count(group.keys@.len(), chunk_size as nat));
            assert(gp.len() == views.len());
            assert(ops_view(before).len() == i);
            assert(before.len() == i);
            assert(ops@[i as int].keys@ == views[i as int]);
            assert(ops_view(ops@)[i as int] == gp[i as int]);
            assert forall|j: int| 0 <= j < i implies ops_view(ops@)[j] == gp[j] by {
                assert(ops@[j] == before[j]);
                assert(ops_view(before)[j] == gp.subrange(0, i as int)[j]);
            }
            assert(ops_view(ops@) =~= group_plan(*group, chunk_size as nat).subrange(0, i + 1));
        }
        i = i + 1;
    }
    proof {
        assert(ops_view(ops@) =~= group_plan(*group, chunk_size as nat));
    }
    ops
}

/// The operations for a whole drain, group after group.
pub fn translate(groups: &Vec<DeltaGroup>, chunk_size: usize) -> (ops: Vec<UpdateOperation>)
    requires
        chunk_size > 0,
        forall|i: int| 0 <= i < groups@.len() ==> (#[trigger] groups@[i]).delta != 0,
    ensures
        ops_view(ops@) == plan(groups@, chunk_size as nat),
{
    let mut ops: Vec<UpdateOperation> = Vec::new();
    let mut i: usize = 0;
    while i < groups.len()
        invariant
            chunk_size > 0,
            i <= groups@.len(),
            forall|j: int| 0 <= j < groups@.len() ==> (#[trigger] groups@[j]).delta != 0,
            ops_view(ops@) == plan(groups@.subrange(0, i as int), chunk_size as nat),
        decreases groups@.len() - i,
    {
        let mut more = translate_group(&groups[i], chunk_size);
        let ghost before = ops@;
        let ghost added = more@;
        ops.append(&mut more);
        proof {
            assert(ops@ == before + added);
            assert(ops_view(added) == group_plan(groups@[i as int], chunk_size as nat));
            let next = groups@.subrange(0, i + 1);
            assert(next.drop_last() =~= groups@.subrange(0, i as int));
            assert(ops_view(ops@) =~= ops_view(before) + group_plan(groups@[i as int], chunk_size as nat));
        }
        i = i + 1;
    }
    proof {
        assert(groups@.subrange(0, groups@.len() as int) =~= groups@);
    }
    ops
}

/// Every key of every planned operation is a key of one of the groups.
pub proof fn lemma_planned_keys_come_from_groups(groups: Seq<DeltaGroup>, c: nat, t: int, a: int)
    requires
        c > 0,
        0 <= t < plan(groups, c).len(),
        0 <= a < plan(groups, c)[t].0.len(),
    ensures
        exists|i: int| 0 <= i < groups.len() && group_has(#[trigger] groups[i], plan(groups, c)[t].0[a]@),
    decreases groups.len(),
{
    let rest = plan(groups.drop_last(), c);
    let g = groups.last();
    let last = groups.len() - 1;
    if t < rest.len() {
        lemma_planned_keys_come_from_groups(groups.drop_last(), c, t, a);
        let i = choose|i: int|
            0 <= i < groups.drop_last().len() && group_has(#[trigger] groups.drop_last()[i], rest[t].0[a]@);
        assert(groups[i] == groups.drop_last()[i]);
        assert(group_has(groups[i], plan(groups, c)[t].0[a]@));
    } else {
        let j = t - rest.len();
        let n = g.keys@.len() as int;
        let ci = c as int;
        let start = j * ci;
        assert(plan(groups, c)[t] == group_plan(g, c)[j]);
        assert(j < chunk_count(n as nat, c));
        assert(start < n) by (nonlinear_arith)
            requires
                0 <= j,
                j < (n + ci - 1) / ci,
                ci > 0,
                n >= 0,
                start == j * ci,
        ;
        assert(start >= 0) by (nonlinear_arith)
            requires
                0 <= j,
                ci > 0,
                start == j * ci,
        ;
        assert(plan(groups, c)[t].0[a] == g.keys@[start + a]);
        assert(group_has(groups[last], plan(groups, c)[t].0[a]@));
    }
}

/// A key whose bumps since the last drain net to zero appears in none of
/// the operations that the drain is translated into.
pub proof fn lemma_zero_net_key_not_emitted(
    m: Map<Seq<char>, int>,
    k: Seq<char>,
    events: Seq<(Seq<char>, int)>,
    groups: Seq<DeltaGroup>,
    c: nat,
)
    requires
        c > 0,
        zero_free(m),
        delta_of(m, k) + net_of(events, k) == 0,
        groups_represent(groups, apply_bumps(m, events)),
    ensures
        forall|t: int, a: int|
            0 <= t < plan(groups, c).len() && 0 <= a < plan(groups, c)[t].0.len()
                ==> (#[trigger] plan(groups, c)[t].0[a])@ != k,
{
    lemma_zero_net_key_not_drained(m, k, events, groups);
    assert forall|t: int, a: int|
        0 <= t < plan(groups, c).len() && 0 <= a < plan(groups, c)[t].0.len()
            implies (#[trigger] plan(groups, c)[t].0[a])@ != k by {
        lemma_planned_keys_come_from_groups(groups, c, t, a);
    }
}

} // verus!
