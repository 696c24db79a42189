//! Splitting a key list into bounded, consecutive chunks.

use vstd::prelude::*;

verus! {

/// The number of chunks of at most `c` items that `m` items fill.
pub open spec fn chunk_count(m: nat, c: nat) -> nat
    recommends
        c > 0,
{
    ((m + c - 1) / (c as int)) as nat
}

/// The `i`-th chunk of `s`: the items from `i * c`, at most `c` of them.
pub open spec fn chunk_at<A>(s: Seq<A>, c: nat, i: int) -> Seq<A> {
    let start = i * c;
    let end = if start + c < s.len() {
        start + c
    } else {
        s.len() as int
    };
    s.subrange(start, end)
}

/// `chunks` is `s` cut into consecutive pieces of `c` items, the last one
/// possibly shorter.
pub open spec fn chunked<A>(s: Seq<A>, c: nat, chunks: Seq<Seq<A>>) -> bool {
    &&& chunks.len() == chunk_count(s.len(), c)
    &&& forall|i: int| 0 <= i < chunks.len() ==> #[trigger] chunks[i] == chunk_at(s, c, i)
}

/// The arithmetic of moving from one chunk to the next.
proof fn lemma_chunk_step(n: int, c: int, k: int)
    requires
        c > 0,
        k >= 0,
        k * c < n,
    ensures
        (k * c + c < n) ==> (k + 1) * c == k * c + c && ((k * c + c) + c - 1) / c == k + 1,
        (k * c + c >= n) ==> (n + c - 1) / c == k + 1,
        (k * c + c - 1) / c == k,
{
    assert((k + 1) * c == k * c + c) by (nonlinear_arith);
    assert((k * c + c - 1) / c == k) by (nonlinear_arith)
        requires
            c > 0,
            k >= 0,
    ;
    assert(((k * c + c) + c - 1) / c == k + 1) by (nonlinear_arith)
        requires
            c > 0,
            k >= 0,
    ;
    if k * c + c >= n {
        assert((n + c - 1) / c == k + 1) by (nonlinear_arith)
            requires
                c > 0,
                k >= 0,
                k * c < n,
                n <= k * c + c,
        ;
    }
}

/// Cuts `keys` into consecutive chunks of at most `size` keys.
pub fn chunk_keys(keys: &Vec<String>, size: usize) -> (chunks: Vec<Vec<String>>)
    requires
        size > 0,
    ensures
        chunked(keys@, size as nat, chunks@.map_values(|v: Vec<String>| v@)),
{
    let n = keys.len();
    let mut chunks: Vec<Vec<String>> = Vec::new();
    let mut start: usize = 0;
    proof {
        assert(chunks@.len() * size == 0);
        if n == 0 {
            assert(chunk_count(0, size as nat) == 0) by (nonlinear_arith)
                requires
                    size > 0,
            ;
        }
    }
    while start < n
        invariant
            n == keys@.len(),
            size > 0,
            start <= n,
            start < n ==> start as int == chunks@.len() * size,
            start == n ==> chunks@.len() == chunk_count(n as nat, size as nat),
            start == 0 ==> chunks@.len() == 0,
            forall|i: int|
                0 <= i < chunks@.len() ==> (#[trigger] chunks@[i])@ == chunk_at(
                    keys@,
                    size as nat,
                    i,
                ),
        decreases n - start,
    {
        let end: usize = if n - start > size {
            start + size
        } else {
            n
        };
        let mut chunk: Vec<String> = Vec::new();
        let mut j: usize = start;
        while j < end
            invariant
                start <= j <= end <= n,
                n == keys@.len(),
                chunk@ == keys@.subrange(start as int, j as int),
            decreases end - j,
        {
            chunk.push(keys[j].clone());
            assert(chunk@ =~= keys@.subrange(start as int, j + 1));
            j = j + 1;
        }
        proof {
            let k = chunks@.len() as int;
            lemma_chunk_step(n as int, size as int, k);
            assert(chunk@ == chunk_at(keys@, size as nat, k));
        }
        chunks.push(chunk);
        start = end;
    }
    proof {
        if n == 0 {
            assert(chunk_count(0, size as nat) == 0) by (nonlinear_arith)
                requires
                    size > 0,
            ;
        }
        let views = chunks@.map_values(|v: Vec<String>| v@);
        assert forall|i: int| 0 <= i < views.len() implies #[trigger] views[i] == chunk_at(
            keys@,
            size as nat,
            i,
        ) by {
            assert(views[i] == chunks@[i]@);
        }
    }
    chunks
}

/// Cutting `m` items into chunks of at most `c` gives the ceiling of `m / c`
/// chunks, none empty, none over `c`, which read in order are the items
/// again: every item lands in exactly one chunk.
pub proof fn lemma_chunks_cover<A>(s: Seq<A>, c: nat, chunks: Seq<Seq<A>>)
    requires
        c > 0,
        chunked(s, c, chunks),
    ensures
        chunks.len() * c >= s.len(),
        forall|i: int| 0 <= i < chunks.len() ==> 0 < (#[trigger] chunks[i]).len() <= c,
        chunks.flatten() == s,
        s.no_duplicates() ==> chunks.flatten().no_duplicates(),
{
    let n = s.len() as int;
    let k = chunks.len() as int;
    assert(k * (c as int) >= n) by (nonlinear_arith)
        requires
            k == (n + c - 1) / (c as int),
            c > 0,
            n >= 0,
    ;
    assert forall|i: int| 0 <= i < chunks.len() implies 0 < (#[trigger] chunks[i]).len() <= c by {
        assert(i * (c as int) < n) by (nonlinear_arith)
            requires
                0 <= i < k,
                k == (n + c - 1) / (c as int),
                c > 0,
                n >= 0,
        ;
        assert(i * (c as int) >= 0) by (nonlinear_arith)
            requires
                0 <= i,
                c > 0,
        ;
    }
    lemma_flatten_prefix(s, c, chunks, k);
    assert(chunks.subrange(0, k) =~= chunks);
    if k * (c as int) < n {
    } else {
        assert(s.subrange(0, n) =~= s);
    }
    if (k - 1) * (c as int) + (c as int) >= n || k == 0 {
        if k == 0 {
            assert(n == 0) by (nonlinear_arith)
                requires
                    0 == (n + c - 1) / (c as int),
                    c > 0,
                    n >= 0,
            ;
            assert(s =~= Seq::<A>::empty());
        }
    }
}

/// The first `j` chunks, read in order, are the items they cover.
proof fn lemma_flatten_prefix<A>(s: Seq<A>, c: nat, chunks: Seq<Seq<A>>, j: int)
    requires
        c > 0,
        chunked(s, c, chunks),
        0 <= j <= chunks.len(),
    ensures
        chunks.subrange(0, j).flatten() == s.subrange(
            0,
            if j * c < s.len() {
                j * c
            } else {
                s.len() as int
            },
        ),
    decreases j,
{
    let n = s.len() as int;
    let ci = c as int;
    if j == 0 {
        assert(chunks.subrange(0, 0) =~= Seq::<Seq<A>>::empty());
        assert(s.subrange(0, 0) =~= Seq::<A>::empty());
    } else {
        lemma_flatten_prefix(s, c, chunks, j - 1);
        let k = chunks.len() as int;
        assert((j - 1) * ci < n) by (nonlinear_arith)
            requires
                0 < j <= k,
                k == (n + ci - 1) / ci,
                ci > 0,
                n >= 0,
        ;
        assert((j - 1) * ci >= 0) by (nonlinear_arith)
            requires
                j >= 1,
                ci > 0,
        ;
        assert(j * ci == (j - 1) * ci + ci) by (nonlinear_arith);
        assert(chunks.subrange(0, j) =~= chunks.subrange(0, j - 1).push(chunks[j - 1]));
        chunks.subrange(0, j - 1).lemma_flatten_push(chunks[j - 1]);
        let lo = (j - 1) * ci;
        let hi = if j * ci < n {
            j * ci
        } else {
            n
        };
        assert(s.subrange(0, lo) + s.subrange(lo, hi) =~= s.subrange(0, hi));
    }
}

} // verus!
