//! Lexicographic order on byte strings.
//!
//! Two byte strings are compared at the first position where they stop
//! agreeing: the one that ends there, or holds the smaller byte there, comes
//! first. Encoded sequences and digests are both ordered this way.

use vstd::prelude::*;

verus! {

/// The first position at or after `from` where `a` and `b` stop agreeing:
/// one of them has ended there, or they hold different bytes.
pub open spec fn first_difference(a: Seq<u8>, b: Seq<u8>, from: int) -> int
    decreases a.len() - from,
{
    if from < 0 || from >= a.len() || from >= b.len() || a[from] != b[from] {
        from
    } else {
        first_difference(a, b, from + 1)
    }
}

/// `a` comes strictly before `b`.
pub open spec fn lex_lt(a: Seq<u8>, b: Seq<u8>) -> bool {
    let k = first_difference(a, b, 0);
    k < b.len() && (k == a.len() || a[k] < b[k])
}

/// `a` comes before `b` or equals it.
pub open spec fn lex_le(a: Seq<u8>, b: Seq<u8>) -> bool {
    !lex_lt(b, a)
}

/// The smaller of `first` and `second`; `first` where neither is smaller.
pub open spec fn lex_min(first: Seq<u8>, second: Seq<u8>) -> Seq<u8> {
    if lex_lt(second, first) {
        second
    } else {
        first
    }
}

/// `k` is a position up to which `a` and `b` agree and at which they stop
/// agreeing.
pub open spec fn splits_at(a: Seq<u8>, b: Seq<u8>, k: int) -> bool {
    &&& 0 <= k <= a.len()
    &&& k <= b.len()
    &&& forall|i: int| 0 <= i < k ==> a[i] == b[i]
    &&& (k == a.len() || k == b.len() || a[k] != b[k])
}

/// What `first_difference` finds, searching from `from`, when the two strings
/// agree before `from`.
pub proof fn lemma_first_difference(a: Seq<u8>, b: Seq<u8>, from: int)
    requires
        0 <= from <= a.len(),
        from <= b.len(),
        forall|i: int| 0 <= i < from ==> a[i] == b[i],
    ensures
        from <= first_difference(a, b, from),
        splits_at(a, b, first_difference(a, b, from)),
    decreases a.len() - from,
{
    if from >= a.len() || from >= b.len() || a[from] != b[from] {
    } else {
        lemma_first_difference(a, b, from + 1);
    }
}

/// There is only one position at which two strings stop agreeing.
pub proof fn lemma_splits_at_unique(a: Seq<u8>, b: Seq<u8>, k: int)
    requires
        splits_at(a, b, k),
    ensures
        first_difference(a, b, 0) == k,
{
    lemma_first_difference(a, b, 0);
    let d = first_difference(a, b, 0);
    if d < k {
        assert(a[d] == b[d]);
    } else if k < d {
        assert(a[k] == b[k]);
    }
}

/// The position at which `a` and `b` stop agreeing is the one at which `b`
/// and `a` do.
pub proof fn lemma_first_difference_symmetric(a: Seq<u8>, b: Seq<u8>)
    ensures
        first_difference(a, b, 0) == first_difference(b, a, 0),
{
    lemma_first_difference(a, b, 0);
    lemma_splits_at_unique(b, a, first_difference(a, b, 0));
}

/// No byte string comes before itself.
pub proof fn lemma_lex_lt_irreflexive(a: Seq<u8>)
    ensures
        !lex_lt(a, a),
{
    lemma_first_difference(a, a, 0);
}

/// Of two byte strings at most one comes before the other.
pub proof fn lemma_lex_lt_asymmetric(a: Seq<u8>, b: Seq<u8>)
    requires
        lex_lt(a, b),
    ensures
        !lex_lt(b, a),
{
    lemma_first_difference(a, b, 0);
    lemma_first_difference_symmetric(a, b);
}

/// Of two different byte strings one comes before the other.
pub proof fn lemma_lex_lt_connected(a: Seq<u8>, b: Seq<u8>)
    requires
        !lex_lt(a, b),
        !lex_lt(b, a),
    ensures
        a == b,
{
    lemma_first_difference(a, b, 0);
    lemma_first_difference_symmetric(a, b);
    assert(a =~= b);
}

/// The order is transitive.
pub proof fn lemma_lex_lt_transitive(a: Seq<u8>, b: Seq<u8>, c: Seq<u8>)
    requires
        lex_lt(a, b),
        lex_lt(b, c),
    ensures
        lex_lt(a, c),
{
    lemma_first_difference(a, b, 0);
    lemma_first_difference(b, c, 0);
    let k1 = first_difference(a, b, 0);
    let k2 = first_difference(b, c, 0);
    let k = if k1 <= k2 {
        k1
    } else {
        k2
    };
    assert forall|i: int| 0 <= i < k implies a[i] == c[i] by {
        assert(a[i] == b[i]);
        assert(b[i] == c[i]);
    }
    if k1 < k2 {
        assert(b[k1] == c[k1]);
    } else if k2 < k1 {
        assert(a[k2] == b[k2]);
    }
    assert(splits_at(a, c, k));
    lemma_splits_at_unique(a, c, k);
}

/// The smaller of two byte strings does not depend on which is named first.
pub proof fn lemma_lex_min_symmetric(a: Seq<u8>, b: Seq<u8>)
    ensures
        lex_min(a, b) == lex_min(b, a),
{
    if lex_lt(b, a) {
        lemma_lex_lt_asymmetric(b, a);
    } else if lex_lt(a, b) {
    } else {
        lemma_lex_lt_connected(a, b);
    }
}

/// Finds the first position where `a` and `b` stop agreeing.
pub fn mismatch(a: &[u8], b: &[u8]) -> (k: usize)
    ensures
        k == first_difference(a@, b@, 0),
        splits_at(a@, b@, k as int),
{
    let mut i: usize = 0;
    while i < a.len() && i < b.len() && a[i] == b[i]
        invariant
            i <= a.len(),
            i <= b.len(),
            forall|j: int| 0 <= j < i ==> a@[j] == b@[j],
        decreases a.len() - i,
    {
        i += 1;
    }
    proof {
        lemma_splits_at_unique(a@, b@, i as int);
    }
    i
}

/// Whether `a` comes strictly before `b`.
pub fn bytes_less(a: &[u8], b: &[u8]) -> (less: bool)
    ensures
        less == lex_lt(a@, b@),
{
    let k = mismatch(a, b);
    k < b.len() && (k == a.len() || a[k] < b[k])
}

} // verus!
