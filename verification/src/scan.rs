//! Finding the first item of a sequence that passes a test.

use vstd::prelude::*;

verus! {

/// The position of the first item of `s` that satisfies `p`, or the length
/// of `s` if no item does.
pub open spec fn first_where<T>(s: Seq<T>, p: spec_fn(T) -> bool) -> nat
    decreases s.len(),
{
    if s.len() == 0 || p(s[0]) {
        0
    } else {
        1 + first_where(s.drop_first(), p)
    }
}

/// [`first_where`] stays within `s`, passes over items that fail `p` only,
/// and stops at one that satisfies `p` unless it reaches the end.
pub proof fn lemma_first_where<T>(s: Seq<T>, p: spec_fn(T) -> bool)
    ensures
        first_where(s, p) <= s.len(),
        forall|j: int| 0 <= j < first_where(s, p) ==> !p(#[trigger] s[j]),
        first_where(s, p) < s.len() ==> p(s[first_where(s, p) as int]),
    decreases s.len(),
{
    if s.len() == 0 || p(s[0]) {
    } else {
        let rest = s.drop_first();
        lemma_first_where(rest, p);
        assert forall|j: int| 0 <= j < first_where(s, p) implies !p(#[trigger] s[j]) by {
            if j > 0 {
                assert(s[j] == rest[j - 1]);
            }
        }
    }
}

/// A position that no item satisfying `p` precedes, and that holds such an
/// item or is the end of `s`, is the one [`first_where`] finds.
pub proof fn lemma_first_where_is<T>(s: Seq<T>, p: spec_fn(T) -> bool, n: nat)
    requires
        n <= s.len(),
        forall|j: int| 0 <= j < n ==> !p(#[trigger] s[j]),
        n == s.len() || p(s[n as int]),
    ensures
        first_where(s, p) == n,
    decreases s.len(),
{
    if s.len() == 0 || p(s[0]) {
        if n > 0 {
            assert(!p(s[0]));
        }
    } else {
        let rest = s.drop_first();
        assert forall|j: int| 0 <= j < n - 1 implies !p(#[trigger] rest[j]) by {
            assert(rest[j] == s[j + 1]);
        }
        lemma_first_where_is(rest, p, (n - 1) as nat);
    }
}

} // verus!
