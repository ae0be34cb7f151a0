//! First-match search over sequences, shared by the store's row lookups.

use vstd::prelude::*;

verus! {

/// Index of the first element satisfying `p`, or `-1` when none does.
pub open spec fn first_where<T>(s: Seq<T>, p: spec_fn(T) -> bool) -> int
    decreases s.len(),
{
    if s.len() == 0 {
        -1
    } else if p(s[0]) {
        0
    } else {
        let r = first_where(s.skip(1), p);
        if r == -1 {
            -1
        } else {
            r + 1
        }
    }
}

/// What `first_where` returns: `-1` exactly when no element matches, and
/// otherwise the least matching index.
pub proof fn lemma_first_where<T>(s: Seq<T>, p: spec_fn(T) -> bool)
    ensures
        first_where(s, p) == -1 ==> forall|i: int| 0 <= i < s.len() ==> !p(#[trigger] s[i]),
        first_where(s, p) != -1 ==> {
            let k = first_where(s, p);
            &&& 0 <= k < s.len()
            &&& p(s[k])
            &&& forall|i: int| 0 <= i < k ==> !p(#[trigger] s[i])
        },
    decreases s.len(),
{
    if s.len() == 0 {
    } else if p(s[0]) {
    } else {
        lemma_first_where(s.skip(1), p);
        let r = first_where(s.skip(1), p);
        if r == -1 {
            assert forall|i: int| 0 <= i < s.len() implies !p(#[trigger] s[i]) by {
                if i > 0 {
                    assert(s[i] == s.skip(1)[i - 1]);
                }
            }
        } else {
            assert(s[r + 1] == s.skip(1)[r]);
            assert forall|i: int| 0 <= i < r + 1 implies !p(#[trigger] s[i]) by {
                if i > 0 {
                    assert(s[i] == s.skip(1)[i - 1]);
                }
            }
        }
    }
}

/// A witness pins `first_where` down: if `s[k]` matches and nothing before
/// it does, then `k` is the first match.
pub proof fn lemma_first_where_is<T>(s: Seq<T>, p: spec_fn(T) -> bool, k: int)
    requires
        0 <= k < s.len(),
        p(s[k]),
        forall|i: int| 0 <= i < k ==> !p(#[trigger] s[i]),
    ensures
        first_where(s, p) == k,
    decreases s.len(),
{
    if k == 0 {
    } else {
        assert(!p(s[0]));
        assert(s.skip(1)[k - 1] == s[k]);
        assert forall|i: int| 0 <= i < k - 1 implies !p(#[trigger] s.skip(1)[i]) by {
            assert(s.skip(1)[i] == s[i + 1]);
        }
        lemma_first_where_is(s.skip(1), p, k - 1);
    }
}

/// When no element matches, `first_where` says so.
pub proof fn lemma_first_where_none<T>(s: Seq<T>, p: spec_fn(T) -> bool)
    requires
        forall|i: int| 0 <= i < s.len() ==> !p(#[trigger] s[i]),
    ensures
        first_where(s, p) == -1,
    decreases s.len(),
{
    if s.len() > 0 {
        assert forall|i: int| 0 <= i < s.skip(1).len() implies !p(#[trigger] s.skip(1)[i]) by {
            assert(s.skip(1)[i] == s[i + 1]);
        }
        lemma_first_where_none(s.skip(1), p);
    }
}

} // verus!
