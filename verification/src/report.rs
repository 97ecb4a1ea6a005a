//! What a run reports of a dataset: its duplicates and its aggregate digest.

use vstd::prelude::*;
use crate::aggregate::{aggregate_digest, finalize_in_order};
use crate::duplicates::{duplicates, duplicates_in_order};
use crate::hashers::HashAlgorithm;
use crate::pipeline::{digest_slices, HashResult};
use crate::sorting::sorted_order;

verus! {

/// What is reported of a dataset once all its records are hashed.
#[derive(Clone, Debug, PartialEq, Eq)]
pub struct Summary {
    /// Each result whose digest an earlier result has too, in the order of
    /// the results.
    pub duplicates: Vec<HashResult>,
    /// The aggregate digest of the dataset.
    pub final_hash: String,
}

impl Summary {
    /// Whether the dataset holds any duplicate.
    pub fn duplicates_found(&self) -> (found: bool)
        ensures
            found == (self.duplicates@.len() > 0),
    {
        self.duplicates.len() > 0
    }
}

/// Sums up a dataset: finds its duplicates and computes its aggregate digest
/// with `finalhash`. The digests are sorted once for both.
pub fn summarize(results: &[HashResult], finalhash: &HashAlgorithm) -> (summary: Summary)
    ensures
        summary.duplicates.deep_view() == duplicates(results.deep_view()),
        summary.final_hash@ == aggregate_digest(*finalhash, results.deep_view()),
{
    let digests = digest_slices(results);
    let order = sorted_order(digests.as_slice());
    let duplicates = duplicates_in_order(results, &order);
    let final_hash = finalize_in_order(results, &order, finalhash);
    Summary { duplicates, final_hash }
}

} // verus!
