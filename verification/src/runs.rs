//! Runs of characters: where a predicate first holds in a text, and what an
//! executable filter that walks the text has then seen.
use vstd::prelude::*;

verus! {

/// The index of the first character of `s` at which `stop` holds, or the
/// length of `s` if there is none.
pub open spec fn stop_index(s: Seq<char>, stop: spec_fn(char) -> bool) -> nat
    decreases s.len(),
{
    if s.len() == 0 || stop(s[0]) {
        0
    } else {
        1 + stop_index(s.drop_first(), stop)
    }
}

/// Whether `filter` can be asked about every character.
pub open spec fn total<F: Fn(char) -> bool>(filter: F) -> bool {
    forall|c: char| call_requires(filter, (c,))
}

/// Whether `filter` may answer `false` on each character of `s`.
pub open spec fn refuses_all<F: Fn(char) -> bool>(filter: F, s: Seq<char>) -> bool {
    forall|i: int| 0 <= i < s.len() ==> call_ensures(filter, (#[trigger] s[i],), false)
}

/// Whether `filter` may answer `true` on the first character of `s`, if `s`
/// has one.
pub open spec fn accepts_front<F: Fn(char) -> bool>(filter: F, s: Seq<char>) -> bool {
    s.len() > 0 ==> call_ensures(filter, (s[0],), true)
}

/// `stop_index` is the least index at which `stop` holds: it lies within `s`,
/// `stop` fails everywhere before it, and holds at it unless it is the end.
pub proof fn lemma_stop_index_is_first(s: Seq<char>, stop: spec_fn(char) -> bool)
    ensures
        stop_index(s, stop) <= s.len(),
        forall|i: int| 0 <= i < stop_index(s, stop) ==> !stop(#[trigger] s[i]),
        stop_index(s, stop) < s.len() ==> stop(s[stop_index(s, stop) as int]),
    decreases s.len(),
{
    if s.len() == 0 || stop(s[0]) {
    } else {
        let t = s.drop_first();
        lemma_stop_index_is_first(t, stop);
        assert forall|i: int| 0 <= i < stop_index(s, stop) implies !stop(#[trigger] s[i]) by {
            if i > 0 {
                assert(s[i] == t[i - 1]);
            }
        }
        if stop_index(s, stop) < s.len() {
            assert(s[stop_index(s, stop) as int] == t[stop_index(t, stop) as int]);
        }
    }
}

/// Any index with the three properties of the first stop is `stop_index`.
pub proof fn lemma_first_stop_is_stop_index(s: Seq<char>, stop: spec_fn(char) -> bool, n: int)
    requires
        0 <= n <= s.len(),
        forall|i: int| 0 <= i < n ==> !stop(#[trigger] s[i]),
        n < s.len() ==> stop(s[n]),
    ensures
        stop_index(s, stop) == n,
    decreases s.len(),
{
    if s.len() == 0 || stop(s[0]) {
    } else {
        let t = s.drop_first();
        assert forall|i: int| 0 <= i < n - 1 implies !stop(#[trigger] t[i]) by {
            assert(t[i] == s[i + 1]);
        }
        lemma_first_stop_is_stop_index(t, stop, n - 1);
    }
}

/// Where a filter that computes `stop` refused a prefix of `s` and accepted
/// the front of what is left, the prefix ends at `stop_index`.
pub proof fn lemma_filter_stops_at_stop_index<F: Fn(char) -> bool>(
    filter: F,
    stop: spec_fn(char) -> bool,
    s: Seq<char>,
    rest: Seq<char>,
)
    requires
        forall|c: char, r: bool| call_ensures(filter, (c,), r) ==> r == stop(c),
        rest.len() <= s.len(),
        rest == s.skip(s.len() - rest.len()),
        refuses_all(filter, s.take(s.len() - rest.len())),
        accepts_front(filter, rest),
    ensures
        stop_index(s, stop) == s.len() - rest.len(),
{
    let n = s.len() - rest.len();
    assert forall|i: int| 0 <= i < n implies !stop(#[trigger] s[i]) by {
        assert(s[i] == s.take(n)[i]);
    }
    if n < s.len() {
        assert(rest[0] == s[n]);
    }
    lemma_first_stop_is_stop_index(s, stop, n);
}

} // verus!
