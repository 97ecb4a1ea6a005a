//! The aggregate digest of a dataset.
//!
//! The digests of all records are sorted and then folded into one. Because
//! of the sorting, the aggregate depends only on which digests there are and
//! how often each occurs, not on the order or the names of the records.

use vstd::prelude::*;
use vstd::relations::sorted_by;
use vstd::seq_lib::lemma_sorted_unique;
use crate::hashers::{calculate_final_hash, folded_digest, texts, HashAlgorithm};
use crate::pipeline::{digest_slices, digests_of, HashResult, ResultView};
use crate::sorting::{
    arranged, digest_order, lemma_digest_order_total, lemma_sorted_order_arranges, sorted_order,
    sorts,
};

verus! {

/// The digests of `digests` in ascending order, each as often as `digests`
/// holds it.
pub open spec fn sorted_digests(digests: Seq<Seq<char>>) -> Seq<Seq<char>> {
    digests.sort_by(digest_order())
}

/// The aggregate digest of a list of results: the fold of their digests in
/// ascending order.
pub open spec fn aggregate_digest(algorithm: HashAlgorithm, results: Seq<ResultView>) -> Seq<char> {
    folded_digest(algorithm, sorted_digests(digests_of(results)))
}

/// `sorted_digests` is in ascending order and holds each digest as often as
/// the list it was made from.
pub proof fn lemma_sorted_digests(digests: Seq<Seq<char>>)
    ensures
        sorted_by(sorted_digests(digests), digest_order()),
        sorted_digests(digests).to_multiset() == digests.to_multiset(),
        sorted_digests(digests).len() == digests.len(),
{
    lemma_digest_order_total();
    digests.lemma_sort_by_ensures(digest_order());
    sorted_digests(digests).to_multiset_ensures();
    digests.to_multiset_ensures();
}

/// There is one way only to put digests in ascending order: a list in
/// ascending order that holds each digest as often as `digests` does is
/// `sorted_digests(digests)`.
pub proof fn lemma_sorted_digests_unique(digests: Seq<Seq<char>>, sorted: Seq<Seq<char>>)
    requires
        sorted_by(sorted, digest_order()),
        sorted.to_multiset() == digests.to_multiset(),
    ensures
        sorted == sorted_digests(digests),
{
    lemma_digest_order_total();
    lemma_sorted_digests(digests);
    lemma_sorted_unique(sorted, sorted_digests(digests), digest_order());
}

/// The aggregate digest does not depend on the order of the records, nor on
/// their names: two lists of results that hold the same digests, each
/// equally often, have the same aggregate digest. Any rearrangement of a list
/// is such a list.
pub proof fn lemma_aggregate_order_invariant(
    algorithm: HashAlgorithm,
    first: Seq<ResultView>,
    second: Seq<ResultView>,
)
    requires
        digests_of(first).to_multiset() == digests_of(second).to_multiset(),
    ensures
        aggregate_digest(algorithm, first) == aggregate_digest(algorithm, second),
{
    lemma_sorted_digests(digests_of(first));
    lemma_sorted_digests_unique(digests_of(second), sorted_digests(digests_of(first)));
}

/// The aggregate digest of `results`, given the sorted order of their
/// digests.
pub(crate) fn finalize_in_order(
    results: &[HashResult],
    order: &Vec<usize>,
    algorithm: &HashAlgorithm,
) -> (digest: String)
    requires
        sorts(digests_of(results.deep_view()), order@),
    ensures
        digest@ == aggregate_digest(*algorithm, results.deep_view()),
{
    let ghost items = digests_of(results.deep_view());
    let n = order.len();
    let mut sorted: Vec<&str> = Vec::with_capacity(n);
    let mut k: usize = 0;
    while k < n
        invariant
            k <= n,
            n == order@.len(),
            items == digests_of(results.deep_view()),
            sorts(items, order@),
            sorted@.len() == k,
            forall|p: int| 0 <= p < k ==> (#[trigger] sorted@[p])@ == items[order@[p] as int],
        decreases n - k,
    {
        sorted.push(results[order[k]].digest.as_str());
        k += 1;
    }
    proof {
        assert(texts(sorted@) =~= arranged(items, order@));
        lemma_sorted_order_arranges(items, order@);
        lemma_sorted_digests_unique(items, texts(sorted@));
    }
    calculate_final_hash(algorithm, sorted.as_slice())
}

/// Computes the aggregate digest of a list of results: their digests are
/// sorted in ascending order and folded with `algorithm`.
pub fn finalize(results: &[HashResult], algorithm: &HashAlgorithm) -> (digest: String)
    ensures
        digest@ == aggregate_digest(*algorithm, results.deep_view()),
{
    let digests = digest_slices(results);
    let order = sorted_order(digests.as_slice());
    finalize_in_order(results, &order, algorithm)
}

} // verus!
