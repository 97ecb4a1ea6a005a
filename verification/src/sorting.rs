//! The order of digests, and a stable merge sort of a digest list.
//!
//! Digests are ordered by the bytes of their text. A list of digests is
//! sorted through its positions: the result names each position of the list
//! once, smaller digests first and equal digests in the order of the list.

use vstd::prelude::*;
use vstd::relations::{sorted_by, total_ordering};
use vstd::seq_lib::lemma_multiset_commutative;
use vstd::string::StringSliceAdditionalSpecFns;
use vstd::utf8::{encode_utf8, encode_utf8_decode_utf8};
use crate::hashers::texts;
use crate::lexical::{
    lemma_first_difference, lemma_lex_lt_asymmetric, lemma_lex_lt_connected,
    lemma_lex_lt_irreflexive, lemma_lex_lt_transitive, lex_lt, mismatch,
};

verus! {

/// The digest `a` comes strictly before the digest `b`: the bytes of its text
/// come first in lexicographic order.
pub open spec fn digest_lt(a: Seq<char>, b: Seq<char>) -> bool {
    lex_lt(encode_utf8(a), encode_utf8(b))
}

/// The digest `a` comes before the digest `b` or equals it.
pub open spec fn digest_le(a: Seq<char>, b: Seq<char>) -> bool {
    !digest_lt(b, a)
}

/// The order of digests as a relation.
pub open spec fn digest_order() -> spec_fn(Seq<char>, Seq<char>) -> bool {
    |a: Seq<char>, b: Seq<char>| digest_le(a, b)
}

/// Position `i` of the list `items` comes before position `j`: it holds the
/// smaller digest or, where the digests are equal, it is the earlier one.
pub open spec fn precedes(items: Seq<Seq<char>>, i: int, j: int) -> bool {
    digest_lt(items[i], items[j]) || (items[i] == items[j] && i < j)
}

/// The digests of `items` at the positions that `order` names, in the order
/// of `order`.
pub open spec fn arranged(items: Seq<Seq<char>>, order: Seq<usize>) -> Seq<Seq<char>> {
    Seq::new(order.len(), |k: int| items[order[k] as int])
}

/// `order` names the position `i`.
pub open spec fn occurs(order: Seq<usize>, i: int) -> bool {
    exists|k: int| 0 <= k < order.len() && order[k] == i
}

/// Each position that `order` names comes before those that it names later.
pub open spec fn ascending(items: Seq<Seq<char>>, order: Seq<usize>) -> bool {
    forall|a: int, b: int|
        0 <= a < b < order.len() ==> precedes(
            items,
            #[trigger] order[a] as int,
            #[trigger] order[b] as int,
        )
}

/// `order` is the sorted order of the positions `lo` up to `hi` of `items`:
/// it names each of them, and no other, smaller digests first and equal
/// digests in the order of the list.
pub open spec fn sorts_range(items: Seq<Seq<char>>, order: Seq<usize>, lo: int, hi: int) -> bool {
    &&& order.len() == hi - lo
    &&& forall|k: int| 0 <= k < order.len() ==> lo <= #[trigger] order[k] < hi
    &&& ascending(items, order)
    &&& forall|i: int| lo <= i < hi ==> occurs(order, i)
    &&& arranged(items, order).to_multiset() == items.subrange(lo, hi).to_multiset()
}

/// `order` is the sorted order of all positions of `items`.
pub open spec fn sorts(items: Seq<Seq<char>>, order: Seq<usize>) -> bool {
    sorts_range(items, order, 0, items.len() as int)
}

/// Digests with the same bytes are the same digest.
pub proof fn lemma_encode_utf8_injective(a: Seq<char>, b: Seq<char>)
    requires
        encode_utf8(a) == encode_utf8(b),
    ensures
        a == b,
{
    encode_utf8_decode_utf8(a);
    encode_utf8_decode_utf8(b);
}

/// No digest comes before itself.
pub proof fn lemma_digest_lt_irreflexive(a: Seq<char>)
    ensures
        !digest_lt(a, a),
{
    lemma_lex_lt_irreflexive(encode_utf8(a));
}

/// Of two digests at most one comes before the other.
pub proof fn lemma_digest_lt_asymmetric(a: Seq<char>, b: Seq<char>)
    requires
        digest_lt(a, b),
    ensures
        !digest_lt(b, a),
{
    lemma_lex_lt_asymmetric(encode_utf8(a), encode_utf8(b));
}

/// The order of digests is transitive.
pub proof fn lemma_digest_lt_transitive(a: Seq<char>, b: Seq<char>, c: Seq<char>)
    requires
        digest_lt(a, b),
        digest_lt(b, c),
    ensures
        digest_lt(a, c),
{
    lemma_lex_lt_transitive(encode_utf8(a), encode_utf8(b), encode_utf8(c));
}

/// Of two different digests one comes before the other.
pub proof fn lemma_digest_lt_connected(a: Seq<char>, b: Seq<char>)
    requires
        !digest_lt(a, b),
        !digest_lt(b, a),
    ensures
        a == b,
{
    lemma_lex_lt_connected(encode_utf8(a), encode_utf8(b));
    lemma_encode_utf8_injective(a, b);
}

/// The order of digests is a total order.
pub proof fn lemma_digest_order_total()
    ensures
        total_ordering(digest_order()),
{
    let r = digest_order();
    assert forall|x: Seq<char>| #[trigger] r(x, x) by {
        lemma_digest_lt_irreflexive(x);
    }
    assert forall|x: Seq<char>, y: Seq<char>| #[trigger] r(x, y) && #[trigger] r(y, x) implies x
        == y by {
        lemma_digest_lt_connected(x, y);
    }
    assert forall|x: Seq<char>, y: Seq<char>, z: Seq<char>| #[trigger]
        r(x, y) && #[trigger] r(y, z) implies r(x, z) by {
        if digest_lt(z, x) {
            if digest_lt(x, y) {
                lemma_digest_lt_transitive(z, x, y);
            } else {
                lemma_digest_lt_connected(x, y);
            }
        }
    }
    assert forall|x: Seq<char>, y: Seq<char>| #[trigger] r(x, y) || #[trigger] r(y, x) by {
        if digest_lt(y, x) {
            lemma_digest_lt_asymmetric(y, x);
        }
    }
}

/// Of two different positions one comes before the other.
pub proof fn lemma_precedes_connected(items: Seq<Seq<char>>, i: int, j: int)
    requires
        i != j,
    ensures
        precedes(items, i, j) || precedes(items, j, i),
{
    if !digest_lt(items[i], items[j]) && !digest_lt(items[j], items[i]) {
        lemma_digest_lt_connected(items[i], items[j]);
    }
}

/// Of two positions at most one comes before the other.
pub proof fn lemma_precedes_asymmetric(items: Seq<Seq<char>>, i: int, j: int)
    requires
        precedes(items, i, j),
    ensures
        !precedes(items, j, i),
{
    lemma_digest_lt_irreflexive(items[i]);
    if digest_lt(items[i], items[j]) {
        lemma_digest_lt_asymmetric(items[i], items[j]);
    }
}

/// The order of positions is transitive.
pub proof fn lemma_precedes_transitive(items: Seq<Seq<char>>, i: int, j: int, k: int)
    requires
        precedes(items, i, j),
        precedes(items, j, k),
    ensures
        precedes(items, i, k),
{
    if digest_lt(items[i], items[j]) && digest_lt(items[j], items[k]) {
        lemma_digest_lt_transitive(items[i], items[j], items[k]);
    }
}

/// The digests of a sorted order are sorted, and they are the digests of the
/// list, each as often as the list holds it.
pub proof fn lemma_sorted_order_arranges(items: Seq<Seq<char>>, order: Seq<usize>)
    requires
        sorts(items, order),
    ensures
        sorted_by(arranged(items, order), digest_order()),
        arranged(items, order).to_multiset() == items.to_multiset(),
{
    let out = arranged(items, order);
    assert(items.subrange(0, items.len() as int) =~= items);
    assert forall|a: int, b: int| 0 <= a < b < out.len() implies #[trigger] digest_order()(
        out[a],
        out[b],
    ) by {
        assert(precedes(items, order[a] as int, order[b] as int));
        lemma_precedes_asymmetric(items, order[a] as int, order[b] as int);
        lemma_digest_lt_irreflexive(out[a]);
    }
}

/// Whether position `i` of `digests` comes before position `j`.
fn position_precedes(digests: &[&str], i: usize, j: usize) -> (r: bool)
    requires
        i < digests@.len(),
        j < digests@.len(),
    ensures
        r == precedes(texts(digests@), i as int, j as int),
{
    let a = digests[i].as_bytes();
    let b = digests[j].as_bytes();
    let k = mismatch(a, b);
    proof {
        let ta = texts(digests@)[i as int];
        let tb = texts(digests@)[j as int];
        assert(a@ == encode_utf8(ta));
        assert(b@ == encode_utf8(tb));
        if k == a.len() && k == b.len() {
            assert(a@ =~= b@);
            lemma_encode_utf8_injective(ta, tb);
            lemma_digest_lt_irreflexive(ta);
        } else if ta == tb {
            lemma_first_difference(a@, a@, 0);
        }
    }
    if k < b.len() && (k == a.len() || a[k] < b[k]) {
        true
    } else if k == a.len() && k == b.len() {
        i < j
    } else {
        false
    }
}

/// Merges the sorted orders of two neighbouring ranges of positions into the
/// sorted order of both.
fn merge(
    digests: &[&str],
    left: &Vec<usize>,
    right: &Vec<usize>,
    lo: usize,
    mid: usize,
    hi: usize,
) -> (out: Vec<usize>)
    requires
        lo <= mid <= hi <= digests@.len(),
        sorts_range(texts(digests@), left@, lo as int, mid as int),
        sorts_range(texts(digests@), right@, mid as int, hi as int),
    ensures
        sorts_range(texts(digests@), out@, lo as int, hi as int),
{
    let ghost items = texts(digests@);
    let mut out: Vec<usize> = Vec::with_capacity(hi - lo);
    let mut a: usize = 0;
    let mut b: usize = 0;
    assert(arranged(items, left@.take(0)) =~= Seq::<Seq<char>>::empty());
    assert(arranged(items, right@.take(0)) =~= Seq::<Seq<char>>::empty());
    assert(arranged(items, out@) =~= Seq::<Seq<char>>::empty());
    assert(Seq::<Seq<char>>::empty().to_multiset() =~= Seq::<Seq<char>>::empty().to_multiset().add(
        Seq::<Seq<char>>::empty().to_multiset(),
    )) by {
        broadcast use vstd::seq_lib::group_to_multiset_ensures;

    }
    while a < left.len() || b < right.len()
        invariant
            items == texts(digests@),
            lo <= mid <= hi <= digests@.len(),
            sorts_range(items, left@, lo as int, mid as int),
            sorts_range(items, right@, mid as int, hi as int),
            a <= left@.len(),
            b <= right@.len(),
            out@.len() == a + b,
            forall|k: int| 0 <= k < out@.len() ==> lo <= #[trigger] out@[k] < hi,
            ascending(items, out@),
            forall|k: int, x: int|
                0 <= k < out@.len() && a <= x < left@.len() ==> precedes(
                    items,
                    #[trigger] out@[k] as int,
                    #[trigger] left@[x] as int,
                ),
            forall|k: int, y: int|
                0 <= k < out@.len() && b <= y < right@.len() ==> precedes(
                    items,
                    #[trigger] out@[k] as int,
                    #[trigger] right@[y] as int,
                ),
            forall|x: int| 0 <= x < a ==> occurs(out@, #[trigger] left@[x] as int),
            forall|y: int| 0 <= y < b ==> occurs(out@, #[trigger] right@[y] as int),
            arranged(items, out@).to_multiset() == arranged(items, left@.take(a as int)).to_multiset().add(
                arranged(items, right@.take(b as int)).to_multiset(),
            ),
        decreases left@.len() - a + right@.len() - b,
    {
        let ghost before = out@;
        let take_left = if b == right.len() {
            true
        } else if a == left.len() {
            false
        } else {
            position_precedes(digests, left[a], right[b])
        };
        if take_left {
            let v = left[a];
            out.push(v);
            proof {
                assert forall|k: int, x: int|
                    0 <= k < out@.len() && a + 1 <= x < left@.len() implies precedes(
                    items,
                    #[trigger] out@[k] as int,
                    #[trigger] left@[x] as int,
                ) by {
                    if k == before.len() {
                        assert(precedes(items, left@[a as int] as int, left@[x] as int));
                    } else {
                        assert(out@[k] == before[k]);
                    }
                }
                assert forall|k: int, y: int|
                    0 <= k < out@.len() && b <= y < right@.len() implies precedes(
                    items,
                    #[trigger] out@[k] as int,
                    #[trigger] right@[y] as int,
                ) by {
                    if k == before.len() {
                        assert(precedes(items, v as int, right@[b as int] as int));
                        if y > b {
                            assert(precedes(items, right@[b as int] as int, right@[y] as int));
                            lemma_precedes_transitive(
                                items,
                                v as int,
                                right@[b as int] as int,
                                right@[y] as int,
                            );
                        }
                    } else {
                        assert(out@[k] == before[k]);
                    }
                }
                assert forall|p: int, q: int| 0 <= p < q < out@.len() implies precedes(
                    items,
                    #[trigger] out@[p] as int,
                    #[trigger] out@[q] as int,
                ) by {
                    assert(out@[p] == before[p]);
                    if q == before.len() {
                        assert(precedes(items, before[p] as int, left@[a as int] as int));
                    } else {
                        assert(out@[q] == before[q]);
                    }
                }
                assert forall|x: int| 0 <= x < a + 1 implies occurs(
                    out@,
                    #[trigger] left@[x] as int,
                ) by {
                    if x == a {
                        assert(out@[before.len() as int] == left@[x]);
                    } else {
                        let k = choose|k: int| 0 <= k < before.len() && before[k] == left@[x];
                        assert(out@[k] == left@[x]);
                    }
                }
                assert forall|y: int| 0 <= y < b implies occurs(out@, #[trigger] right@[y] as int) by {
                    let k = choose|k: int| 0 <= k < before.len() && before[k] == right@[y];
                    assert(out@[k] == right@[y]);
                }
                let item = items[v as int];
                assert(arranged(items, out@) =~= arranged(items, before).push(item));
                assert(arranged(items, left@.take(a + 1)) =~= arranged(
                    items,
                    left@.take(a as int),
                ).push(item));
                lemma_push_left(
                    arranged(items, before),
                    arranged(items, left@.take(a as int)),
                    arranged(items, right@.take(b as int)),
                    item,
                );
            }
            a += 1;
        } else {
            let v = right[b];
            out.push(v);
            proof {
                if a < left@.len() {
                    assert(lo <= left@[a as int] < mid);
                    assert(mid <= right@[b as int] < hi);
                    lemma_precedes_connected(items, left@[a as int] as int, v as int);
                }
                assert forall|k: int, x: int|
                    0 <= k < out@.len() && a <= x < left@.len() implies precedes(
                    items,
                    #[trigger] out@[k] as int,
                    #[trigger] left@[x] as int,
                ) by {
                    if k == before.len() {
                        assert(precedes(items, v as int, left@[a as int] as int));
                        if x > a {
                            assert(precedes(items, left@[a as int] as int, left@[x] as int));
                            lemma_precedes_transitive(
                                items,
                                v as int,
                                left@[a as int] as int,
                                left@[x] as int,
                            );
                        }
                    } else {
                        assert(out@[k] == before[k]);
                    }
                }
                assert forall|k: int, y: int|
                    0 <= k < out@.len() && b + 1 <= y < right@.len() implies precedes(
                    items,
                    #[trigger] out@[k] as int,
                    #[trigger] right@[y] as int,
                ) by {
                    if k == before.len() {
                        assert(precedes(items, right@[b as int] as int, right@[y] as int));
                    } else {
                        assert(out@[k] == before[k]);
                    }
                }
                assert forall|p: int, q: int| 0 <= p < q < out@.len() implies precedes(
                    items,
                    #[trigger] out@[p] as int,
                    #[trigger] out@[q] as int,
                ) by {
                    assert(out@[p] == before[p]);
                    if q == before.len() {
                        assert(precedes(items, before[p] as int, right@[b as int] as int));
                    } else {
                        assert(out@[q] == before[q]);
                    }
                }
                assert forall|x: int| 0 <= x < a implies occurs(out@, #[trigger] left@[x] as int) by {
                    let k = choose|k: int| 0 <= k < before.len() && before[k] == left@[x];
                    assert(out@[k] == left@[x]);
                }
                assert forall|y: int| 0 <= y < b + 1 implies occurs(
                    out@,
                    #[trigger] right@[y] as int,
                ) by {
                    if y == b {
                        assert(out@[before.len() as int] == right@[y]);
                    } else {
                        let k = choose|k: int| 0 <= k < before.len() && before[k] == right@[y];
                        assert(out@[k] == right@[y]);
                    }
                }
                let item = items[v as int];
                assert(arranged(items, out@) =~= arranged(items, before).push(item));
                assert(arranged(items, right@.take(b + 1)) =~= arranged(
                    items,
                    right@.take(b as int),
                ).push(item));
                lemma_push_right(
                    arranged(items, before),
                    arranged(items, left@.take(a as int)),
                    arranged(items, right@.take(b as int)),
                    item,
                );
            }
            b += 1;
        }
    }
    proof {
        assert(left@.take(a as int) =~= left@);
        assert(right@.take(b as int) =~= right@);
        lemma_multiset_commutative(
            items.subrange(lo as int, mid as int),
            items.subrange(mid as int, hi as int),
        );
        assert(items.subrange(lo as int, mid as int) + items.subrange(mid as int, hi as int)
            =~= items.subrange(lo as int, hi as int));
        assert forall|i: int| lo <= i < hi implies occurs(out@, i) by {
            if i < mid {
                assert(occurs(left@, i));
                let x = choose|x: int| 0 <= x < left@.len() && left@[x] == i;
                assert(occurs(out@, left@[x] as int));
            } else {
                assert(occurs(right@, i));
                let y = choose|y: int| 0 <= y < right@.len() && right@[y] == i;
                assert(occurs(out@, right@[y] as int));
            }
        }
    }
    out
}

/// Putting an item behind the first of two lists puts it into the sum of
/// their multisets.
proof fn lemma_push_left(
    out: Seq<Seq<char>>,
    left: Seq<Seq<char>>,
    right: Seq<Seq<char>>,
    item: Seq<char>,
)
    requires
        out.to_multiset() == left.to_multiset().add(right.to_multiset()),
    ensures
        out.push(item).to_multiset() == left.push(item).to_multiset().add(right.to_multiset()),
{
    broadcast use vstd::seq_lib::group_to_multiset_ensures;

    assert(out.push(item).to_multiset() =~= left.push(item).to_multiset().add(
        right.to_multiset(),
    ));
}

/// Putting an item behind the second of two lists puts it into the sum of
/// their multisets.
proof fn lemma_push_right(
    out: Seq<Seq<char>>,
    left: Seq<Seq<char>>,
    right: Seq<Seq<char>>,
    item: Seq<char>,
)
    requires
        out.to_multiset() == left.to_multiset().add(right.to_multiset()),
    ensures
        out.push(item).to_multiset() == left.to_multiset().add(right.push(item).to_multiset()),
{
    broadcast use vstd::seq_lib::group_to_multiset_ensures;

    assert(out.push(item).to_multiset() =~= left.to_multiset().add(
        right.push(item).to_multiset(),
    ));
}

/// Sorts the positions `lo` up to `hi` of `digests`.
fn sort_range(digests: &[&str], lo: usize, hi: usize) -> (order: Vec<usize>)
    requires
        lo <= hi <= digests@.len(),
    ensures
        sorts_range(texts(digests@), order@, lo as int, hi as int),
    decreases hi - lo,
{
    let ghost items = texts(digests@);
    if hi - lo == 0 {
        let order: Vec<usize> = Vec::new();
        assert(arranged(items, order@) =~= items.subrange(lo as int, hi as int));
        order
    } else if hi - lo == 1 {
        let mut order: Vec<usize> = Vec::new();
        order.push(lo);
        assert(arranged(items, order@) =~= items.subrange(lo as int, hi as int));
        assert(order@[0] == lo);
        order
    } else {
        let mid = lo + (hi - lo) / 2;
        let left = sort_range(digests, lo, mid);
        let right = sort_range(digests, mid, hi);
        merge(digests, &left, &right, lo, mid, hi)
    }
}

/// Sorts a list of digests through its positions: the result names each
/// position once, smaller digests first and equal digests in the order of the
/// list.
pub fn sorted_order(digests: &[&str]) -> (order: Vec<usize>)
    ensures
        sorts(texts(digests@), order@),
{
    sort_range(digests, 0, digests.len())
}

} // verus!
