//! Scans over sequences: the position of the first element that satisfies a
//! predicate, and the number of elements that do.
//!
//! Lookups throughout the crate are "first match wins" scans and quotas are
//! counts; this module gives both one mathematical definition and the lemmas
//! that connect them to the facts a scanning loop maintains.

use vstd::prelude::*;

verus! {

/// Index of the first element of `s` that satisfies `p`, or `None` when no
/// element does.
pub open spec fn first_index<T>(s: Seq<T>, p: spec_fn(T) -> bool) -> Option<int>
    decreases s.len(),
{
    if s.len() == 0 {
        None
    } else if p(s[0]) {
        Some(0)
    } else {
        match first_index(s.drop_first(), p) {
            Some(i) => Some(i + 1),
            None => None,
        }
    }
}

/// What `first_index` returns: an index in range whose element satisfies `p`
/// and before which no element does; `None` only when no element satisfies
/// `p`.
pub proof fn lemma_first_index<T>(s: Seq<T>, p: spec_fn(T) -> bool)
    ensures
        match first_index(s, p) {
            Some(i) => {
                &&& 0 <= i < s.len()
                &&& p(s[i])
                &&& forall|k: int| 0 <= k < i ==> !p(#[trigger] s[k])
            },
            None => forall|k: int| 0 <= k < s.len() ==> !p(#[trigger] s[k]),
        },
    decreases s.len(),
{
    if s.len() > 0 && !p(s[0]) {
        let rest = s.drop_first();
        lemma_first_index(rest, p);
        match first_index(rest, p) {
            Some(i) => {
                assert forall|k: int| 0 <= k < i + 1 implies !p(#[trigger] s[k]) by {
                    if k > 0 {
                        assert(s[k] == rest[k - 1]);
                    }
                }
            },
            None => {
                assert forall|k: int| 0 <= k < s.len() implies !p(#[trigger] s[k]) by {
                    if k > 0 {
                        assert(s[k] == rest[k - 1]);
                    }
                }
            },
        }
    }
}

/// An index whose element satisfies `p`, with no earlier element that does,
/// is the one `first_index` returns.
pub proof fn lemma_first_index_found<T>(s: Seq<T>, p: spec_fn(T) -> bool, i: int)
    requires
        0 <= i < s.len(),
        p(s[i]),
        forall|k: int| 0 <= k < i ==> !p(#[trigger] s[k]),
    ensures
        first_index(s, p) == Some(i),
{
    lemma_first_index(s, p);
}

/// When no element satisfies `p`, `first_index` returns `None`.
pub proof fn lemma_first_index_absent<T>(s: Seq<T>, p: spec_fn(T) -> bool)
    requires
        forall|k: int| 0 <= k < s.len() ==> !p(#[trigger] s[k]),
    ensures
        first_index(s, p) is None,
{
    lemma_first_index(s, p);
}

/// Number of elements of `s` that satisfy `p`.
pub open spec fn count_where<T>(s: Seq<T>, p: spec_fn(T) -> bool) -> nat
    decreases s.len(),
{
    if s.len() == 0 {
        0
    } else {
        count_where(s.drop_last(), p) + if p(s.last()) {
            1nat
        } else {
            0nat
        }
    }
}

/// Counting one element further adds one exactly when that element
/// satisfies `p`.
pub proof fn lemma_count_where_step<T>(s: Seq<T>, p: spec_fn(T) -> bool, i: int)
    requires
        0 <= i < s.len(),
    ensures
        count_where(s.take(i + 1), p) == count_where(s.take(i), p) + if p(s[i]) {
            1nat
        } else {
            0nat
        },
{
    assert(s.take(i + 1).drop_last() =~= s.take(i));
}

/// A count never exceeds the length of the sequence.
pub proof fn lemma_count_where_bound<T>(s: Seq<T>, p: spec_fn(T) -> bool)
    ensures
        count_where(s, p) <= s.len(),
    decreases s.len(),
{
    if s.len() > 0 {
        lemma_count_where_bound(s.drop_last(), p);
    }
}

/// A count is positive exactly when some element satisfies `p`.
pub proof fn lemma_count_where_positive<T>(s: Seq<T>, p: spec_fn(T) -> bool)
    ensures
        count_where(s, p) > 0 <==> exists|k: int| 0 <= k < s.len() && p(#[trigger] s[k]),
    decreases s.len(),
{
    if s.len() > 0 {
        let front = s.drop_last();
        lemma_count_where_positive(front, p);
        if count_where(s, p) > 0 {
            if p(s.last()) {
                assert(p(s[s.len() - 1]));
            } else {
                let k = choose|k: int| 0 <= k < front.len() && p(#[trigger] front[k]);
                assert(p(s[k]));
            }
        }
        if exists|k: int| 0 <= k < s.len() && p(#[trigger] s[k]) {
            let k = choose|k: int| 0 <= k < s.len() && p(#[trigger] s[k]);
            if k < s.len() - 1 {
                assert(p(front[k]));
            }
        }
    }
}

} // verus!
