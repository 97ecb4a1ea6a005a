//! Detection of records that repeat the digest of an earlier record.
//!
//! The first record with a given digest stands for that digest. Every later
//! record with the same digest is a duplicate, whatever its name.

use vstd::prelude::*;
use crate::pipeline::{copy_result, digest_slices, digests_of, HashResult, ResultView};
use crate::sorting::{
    digest_lt, lemma_digest_lt_asymmetric, lemma_digest_lt_irreflexive,
    lemma_precedes_asymmetric, occurs, precedes, sorted_order, sorts,
};

verus! {

/// Position `i` holds a digest that an earlier position of `digests` holds
/// too.
pub open spec fn seen_before(digests: Seq<Seq<char>>, i: int) -> bool {
    exists|j: int| 0 <= j < i && digests[j] == digests[i]
}

/// The duplicates among the first `n` results, in the order of the list.
pub open spec fn duplicates_among(results: Seq<ResultView>, n: int) -> Seq<ResultView>
    decreases n,
{
    if n <= 0 {
        Seq::empty()
    } else if seen_before(digests_of(results), n - 1) {
        duplicates_among(results, n - 1).push(results[n - 1])
    } else {
        duplicates_among(results, n - 1)
    }
}

/// The duplicates of a list of results: each result whose digest an earlier
/// result of the list has too, in the order of the list.
pub open spec fn duplicates(results: Seq<ResultView>) -> Seq<ResultView> {
    duplicates_among(results, results.len() as int)
}

/// The duplicates among the first `n` results are the results before `n`
/// whose digest an earlier result has too.
pub proof fn lemma_duplicates_among(results: Seq<ResultView>, n: int, x: ResultView)
    requires
        0 <= n <= results.len(),
    ensures
        duplicates_among(results, n).len() <= n,
        duplicates_among(results, n).contains(x) <==> exists|i: int|
            0 <= i < n && seen_before(digests_of(results), i) && #[trigger] results[i] == x,
    decreases n,
{
    if n > 0 {
        lemma_duplicates_among(results, n - 1, x);
        let before = duplicates_among(results, n - 1);
        let now = duplicates_among(results, n);
        if seen_before(digests_of(results), n - 1) {
            assert(now == before.push(results[n - 1]));
            if now.contains(x) {
                let k = choose|k: int| 0 <= k < now.len() && now[k] == x;
                if k < before.len() {
                    assert(before[k] == x);
                    assert(before.contains(x));
                } else {
                    assert(results[n - 1] == x);
                }
            }
            if exists|i: int|
                0 <= i < n && seen_before(digests_of(results), i) && #[trigger] results[i] == x {
                let i = choose|i: int|
                    0 <= i < n && seen_before(digests_of(results), i) && #[trigger] results[i]
                        == x;
                if i < n - 1 {
                    assert(before.contains(x));
                    let k = choose|k: int| 0 <= k < before.len() && before[k] == x;
                    assert(now[k] == x);
                } else {
                    assert(now[before.len() as int] == x);
                }
            }
        }
    }
}

/// A result is among the duplicates exactly if it stands in the list at a
/// position whose digest an earlier position has too. The first result with
/// a digest, and any result whose digest no other has, is never among them
/// on that account.
pub proof fn lemma_duplicates_members(results: Seq<ResultView>, x: ResultView)
    ensures
        duplicates(results).len() <= results.len(),
        duplicates(results).contains(x) <==> exists|i: int|
            0 <= i < results.len() && seen_before(digests_of(results), i) && #[trigger] results[i]
                == x,
{
    lemma_duplicates_among(results, results.len() as int, x);
}

/// In the sorted order of a list, a position repeats an earlier digest
/// exactly if the position just before it in that order holds the same
/// digest.
pub proof fn lemma_repeat_in_order(items: Seq<Seq<char>>, order: Seq<usize>, k: int)
    requires
        sorts(items, order),
        0 <= k < order.len(),
    ensures
        seen_before(items, order[k] as int) <==> (k > 0 && items[order[k - 1] as int]
            == items[order[k] as int]),
{
    let i = order[k] as int;
    if k > 0 && items[order[k - 1] as int] == items[i] {
        let h = order[k - 1] as int;
        assert(precedes(items, h, i));
        lemma_digest_lt_irreflexive(items[i]);
        assert(0 <= h < i && items[h] == items[i]);
    }
    if seen_before(items, i) {
        let j = choose|j: int| 0 <= j < i && items[j] == items[i];
        assert(occurs(order, j));
        let p = choose|p: int| 0 <= p < order.len() && order[p] == j;
        assert(precedes(items, j, i));
        lemma_precedes_asymmetric(items, j, i);
        if p > k {
            assert(precedes(items, order[k] as int, order[p] as int));
        }
        assert(p < k);
        if p < k - 1 {
            let h = order[k - 1] as int;
            assert(precedes(items, order[p] as int, h));
            assert(precedes(items, h, i));
            lemma_digest_lt_irreflexive(items[j]);
            if digest_lt(items[h], items[i]) && digest_lt(items[j], items[h]) {
                lemma_digest_lt_asymmetric(items[j], items[h]);
            }
        }
    }
}

/// The duplicates of `results`, given the sorted order of their digests.
pub(crate) fn duplicates_in_order(results: &[HashResult], order: &Vec<usize>) -> (found: Vec<HashResult>)
    requires
        sorts(digests_of(results.deep_view()), order@),
    ensures
        found.deep_view() == duplicates(results.deep_view()),
{
    let ghost views = results.deep_view();
    let ghost items = digests_of(views);
    let n = results.len();
    let mut repeated: Vec<bool> = Vec::with_capacity(n);
    let mut i: usize = 0;
    while i < n
        invariant
            i <= n,
            repeated@.len() == i,
        decreases n - i,
    {
        repeated.push(false);
        i += 1;
    }
    let mut k: usize = 0;
    while k < n
        invariant
            k <= n,
            n == results@.len(),
            views == results.deep_view(),
            items == digests_of(views),
            sorts(items, order@),
            repeated@.len() == n,
            forall|p: int|
                0 <= p < k ==> repeated@[(#[trigger] order@[p]) as int] == seen_before(
                    items,
                    order@[p] as int,
                ),
        decreases n - k,
    {
        let current = order[k];
        let same = k > 0 && results[order[k - 1]].digest == results[current].digest;
        proof {
            lemma_repeat_in_order(items, order@, k as int);
            assert forall|p: int| 0 <= p < k implies order@[p] != current by {
                assert(precedes(items, order@[p] as int, order@[k as int] as int));
                lemma_digest_lt_irreflexive(items[current as int]);
            }
        }
        repeated.set(current, same);
        k += 1;
    }
    proof {
        assert forall|i: int| 0 <= i < n implies repeated@[i] == seen_before(items, i) by {
            assert(occurs(order@, i));
            let p = choose|p: int| 0 <= p < order@.len() && order@[p] == i;
            assert(repeated@[order@[p] as int] == seen_before(items, order@[p] as int));
        }
    }
    let mut found: Vec<HashResult> = Vec::new();
    let mut i: usize = 0;
    while i < n
        invariant
            i <= n,
            n == results@.len(),
            views == results.deep_view(),
            items == digests_of(views),
            repeated@.len() == n,
            forall|j: int| 0 <= j < n ==> repeated@[j] == seen_before(items, j),
            found.deep_view() == duplicates_among(views, i as int),
        decreases n - i,
    {
        if repeated[i] {
            let ghost before = found.deep_view();
            found.push(copy_result(&results[i]));
            assert(found.deep_view() =~= before.push(views[i as int]));
        }
        i += 1;
    }
    found
}

/// Finds the duplicates of a list of results: each result whose digest an
/// earlier result of the list has too, in the order of the list. The list
/// itself is left as it is.
pub fn find_duplicates(results: &[HashResult]) -> (found: Vec<HashResult>)
    ensures
        found.deep_view() == duplicates(results.deep_view()),
{
    let digests = digest_slices(results);
    let order = sorted_order(digests.as_slice());
    duplicates_in_order(results, &order)
}

} // verus!
