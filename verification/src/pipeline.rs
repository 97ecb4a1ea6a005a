//! From parsed records to their digests, one result for each record and in
//! the order of the records.

use vstd::prelude::*;
use crate::canonical::{encode_for_hashing, hashed_codes};
use crate::hashers::{calculate_hash, record_digest, texts, HashAlgorithm};
use crate::parser::{is_trimmed, lemma_trimmed, lemma_trimmed_idempotent, trimmed, SliceExt};

verus! {

/// A parsed record: its name and its raw sequence bytes.
#[derive(Clone, Debug, PartialEq, Eq)]
pub struct RawRecord {
    pub name: Vec<u8>,
    pub sequence: Vec<u8>,
}

/// The digest of one record, under the record's name.
#[derive(Clone, Debug, PartialEq, Eq)]
pub struct HashResult {
    pub name: Vec<u8>,
    pub digest: String,
}

/// What a `RawRecord` holds.
pub struct RecordView {
    pub name: Seq<u8>,
    pub sequence: Seq<u8>,
}

/// What a `HashResult` holds.
pub struct ResultView {
    pub name: Seq<u8>,
    pub digest: Seq<char>,
}

impl View for RawRecord {
    type V = RecordView;

    open spec fn view(&self) -> RecordView {
        RecordView { name: self.name@, sequence: self.sequence@ }
    }
}

impl DeepView for RawRecord {
    type V = RecordView;

    open spec fn deep_view(&self) -> RecordView {
        self@
    }
}

impl View for HashResult {
    type V = ResultView;

    open spec fn view(&self) -> ResultView {
        ResultView { name: self.name@, digest: self.digest@ }
    }
}

impl DeepView for HashResult {
    type V = ResultView;

    open spec fn deep_view(&self) -> ResultView {
        self@
    }
}

/// The digest of a raw sequence: the whitespace at its ends is dropped, the
/// rest is encoded, in canonical mode brought into canonical form, and
/// hashed.
pub open spec fn sequence_digest(
    sequence: Seq<u8>,
    canonical: bool,
    algorithm: HashAlgorithm,
) -> Seq<char> {
    record_digest(algorithm, hashed_codes(trimmed(sequence), canonical))
}

/// The result for one record: its name as it is, and the digest of its
/// sequence.
pub open spec fn record_result(
    record: RecordView,
    canonical: bool,
    algorithm: HashAlgorithm,
) -> ResultView {
    ResultView {
        name: record.name,
        digest: sequence_digest(record.sequence, canonical, algorithm),
    }
}

/// The results for a list of records: one for each record, in the order of
/// the records.
pub open spec fn record_results(
    records: Seq<RecordView>,
    canonical: bool,
    algorithm: HashAlgorithm,
) -> Seq<ResultView> {
    Seq::new(records.len(), |i: int| record_result(records[i], canonical, algorithm))
}

/// The digests of a list of results, in the order of the list.
pub open spec fn digests_of(results: Seq<ResultView>) -> Seq<Seq<char>> {
    Seq::new(results.len(), |i: int| results[i].digest)
}

/// For a sequence that comes without whitespace at its ends, the digest is
/// that of its codes as they are.
pub proof fn lemma_digest_of_trimmed(sequence: Seq<u8>, canonical: bool, algorithm: HashAlgorithm)
    requires
        is_trimmed(sequence),
    ensures
        sequence_digest(sequence, canonical, algorithm) == record_digest(
            algorithm,
            hashed_codes(sequence, canonical),
        ),
{
    lemma_trimmed(sequence);
}

/// Whitespace at the ends of a sequence does not change its digest.
pub proof fn lemma_digest_ignores_outer_whitespace(
    sequence: Seq<u8>,
    canonical: bool,
    algorithm: HashAlgorithm,
)
    ensures
        sequence_digest(trimmed(sequence), canonical, algorithm) == sequence_digest(
            sequence,
            canonical,
            algorithm,
        ),
{
    lemma_trimmed_idempotent(sequence);
}

/// Computes the digest of a raw sequence.
pub fn hash_sequence(
    sequence: &[u8],
    canonical: bool,
    algorithm: &HashAlgorithm,
) -> (digest: String)
    ensures
        digest@ == sequence_digest(sequence@, canonical, *algorithm),
{
    let codes = encode_for_hashing(sequence.trim(), canonical);
    calculate_hash(algorithm, codes.as_slice())
}

/// Computes the result for one record.
pub fn hash_record(
    record: &RawRecord,
    canonical: bool,
    algorithm: &HashAlgorithm,
) -> (result: HashResult)
    ensures
        result@ == record_result(record@, canonical, *algorithm),
{
    let name = copy_bytes(record.name.as_slice());
    let digest = hash_sequence(record.sequence.as_slice(), canonical, algorithm);
    HashResult { name, digest }
}

/// Computes the results for a list of records, one for each record and in
/// the order of the records.
pub fn process(
    records: &[RawRecord],
    canonical: bool,
    algorithm: &HashAlgorithm,
) -> (results: Vec<HashResult>)
    ensures
        results.deep_view() == record_results(records.deep_view(), canonical, *algorithm),
{
    let mut results: Vec<HashResult> = Vec::with_capacity(records.len());
    let mut i: usize = 0;
    while i < records.len()
        invariant
            i <= records.len(),
            results@.len() == i,
            forall|k: int|
                0 <= k < i ==> (#[trigger] results@[k])@ == record_result(
                    records@[k]@,
                    canonical,
                    *algorithm,
                ),
        decreases records.len() - i,
    {
        results.push(hash_record(&records[i], canonical, algorithm));
        i += 1;
    }
    assert(results.deep_view() =~= record_results(records.deep_view(), canonical, *algorithm));
    results
}

/// The digests of a list of results as string slices, in the order of the
/// list.
pub fn digest_slices<'a>(results: &'a [HashResult]) -> (digests: Vec<&'a str>)
    ensures
        texts(digests@) == digests_of(results.deep_view()),
{
    let mut digests: Vec<&'a str> = Vec::with_capacity(results.len());
    let mut i: usize = 0;
    while i < results.len()
        invariant
            i <= results.len(),
            digests@.len() == i,
            forall|k: int| 0 <= k < i ==> (#[trigger] digests@[k])@ == results@[k].digest@,
        decreases results.len() - i,
    {
        digests.push(results[i].digest.as_str());
        i += 1;
    }
    assert(texts(digests@) =~= digests_of(results.deep_view()));
    digests
}

/// A copy of a byte string.
pub fn copy_bytes(bytes: &[u8]) -> (copy: Vec<u8>)
    ensures
        copy@ == bytes@,
{
    let mut copy: Vec<u8> = Vec::with_capacity(bytes.len());
    let mut i: usize = 0;
    while i < bytes.len()
        invariant
            i <= bytes.len(),
            copy@ == bytes@.take(i as int),
        decreases bytes.len() - i,
    {
        copy.push(bytes[i]);
        i += 1;
        assert(copy@ =~= bytes@.take(i as int));
    }
    assert(bytes@.take(i as int) =~= bytes@);
    copy
}

/// A copy of a result.
pub fn copy_result(result: &HashResult) -> (copy: HashResult)
    ensures
        copy@ == result@,
{
    HashResult { name: copy_bytes(result.name.as_slice()), digest: result.digest.clone() }
}

} // verus!
