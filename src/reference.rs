//! Reading the key of the referenced entity out of a reference URI.

use vstd::prelude::*;
use crate::translate::{is_plain_key, plain_key};

verus! {

/// The position of the last `/` in `s`, or -1 when there is none.
pub open spec fn last_slash(s: Seq<char>) -> int
    decreases s.len(),
{
    if s.len() == 0 {
        -1
    } else if s.last() == '/' {
        s.len() - 1
    } else {
        last_slash(s.drop_last())
    }
}

/// What follows the last `/` of `s`, if it has one.
pub open spec fn trailing_segment(s: Seq<char>) -> Option<Seq<char>> {
    if last_slash(s) < 0 {
        None
    } else {
        Some(s.subrange(last_slash(s) + 1, s.len() as int))
    }
}

/// The key that a reference URI names: its trailing path segment, when there
/// is one and it can stand in a filter as it is.
pub open spec fn referenced_key_of(uri: Seq<char>) -> Option<Seq<char>> {
    match trailing_segment(uri) {
        Some(k) => if plain_key(k) {
            Some(k)
        } else {
            None
        },
        None => None,
    }
}

/// `last_slash` points at a `/`, with none after it.
proof fn lemma_last_slash_bounds(s: Seq<char>)
    ensures
        -1 <= last_slash(s) < s.len(),
        last_slash(s) >= 0 ==> s[last_slash(s)] == '/',
        forall|j: int| last_slash(s) < j < s.len() ==> s[j] != '/',
    decreases s.len(),
{
    if s.len() > 0 && s.last() != '/' {
        lemma_last_slash_bounds(s.drop_last());
        assert forall|j: int| last_slash(s) < j < s.len() implies s[j] != '/' by {
            if j < s.len() - 1 {
                assert(s[j] == s.drop_last()[j]);
            }
        }
    }
}

/// Cutting off a tail without `/` leaves the last `/` where it was.
proof fn lemma_last_slash_suffix(s: Seq<char>, i: int)
    requires
        0 <= i <= s.len(),
        forall|j: int| i <= j < s.len() ==> s[j] != '/',
    ensures
        last_slash(s) == last_slash(s.subrange(0, i)),
    decreases s.len() - i,
{
    if i < s.len() {
        assert(s.drop_last().subrange(0, i) =~= s.subrange(0, i));
        lemma_last_slash_suffix(s.drop_last(), i);
    } else {
        assert(s.subrange(0, i) =~= s);
    }
}

/// The key that `uri` references: the text after its last `/`
/// (`at://did:plc:x/app.bsky.feed.post/3l3pte3p2e325` gives `3l3pte3p2e325`).
/// A reference without a `/`, or whose last segment is empty or holds a
/// character that filters reserve, gives `None`.
pub fn referenced_key(uri: &str) -> (r: Option<String>)
    ensures
        r is None <==> referenced_key_of(uri@) is None,
        r matches Some(k) ==> referenced_key_of(uri@) == Some(k@),
{
    let n = uri.unicode_len();
    let mut i: usize = n;
    while i > 0
        invariant
            n == uri@.len(),
            i <= n,
            forall|j: int| i <= j < n ==> uri@[j] != '/',
        ensures
            i <= n,
            forall|j: int| i <= j < n ==> uri@[j] != '/',
            i > 0 ==> uri@[i - 1] == '/',
        decreases i,
    {
        if uri.get_char(i - 1) == '/' {
            break;
        }
        i = i - 1;
    }
    proof {
        lemma_last_slash_bounds(uri@);
        lemma_last_slash_suffix(uri@, i as int);
        let pre = uri@.subrange(0, i as int);
        if i > 0 {
            assert(pre.last() == '/');
            assert(last_slash(pre) == i - 1);
        } else {
            assert(pre.len() == 0);
        }
    }
    if i == 0 {
        return None;
    }
    let segment = uri.substring_char(i, n);
    if is_plain_key(segment) {
        Some(String::from_str(segment))
    } else {
        None
    }
}

} // verus!
