//! The digest algorithms: one digest for each record, and one aggregate
//! digest folded from many.
//!
//! MD5, SHA-256 and HighwayHash themselves are computed by the `md-5`, `sha2`
//! and `highway` crates. What they compute is not proved here: it is named
//! (`md5_digest`, `sha256_digest`, `highway_hash64`), and the contracts below
//! say exactly which bytes are fed to which of them and how the result is
//! written out.

use vstd::prelude::*;
use vstd::bytes::{spec_u64_to_le_bytes, u64_to_le_bytes};
use vstd::string::StringSliceAdditionalSpecFns;
use highway::{HighwayHash, HighwayHasher, Key};
use md5::{Digest, Md5};
use sha2::Sha256;
use crate::canonical::{
    canonical_codes, encoded, lemma_canonical_of_opposite_strand, reverse_complement,
};
use crate::text::{
    decimal_digits, decimal_string, hex_digits, hex_string, lemma_parse_of_decimal_digits,
    parse_decimal, parsed_decimal,
};

verus! {

/// A digest algorithm.
#[derive(Clone, Copy, Debug, PartialEq, Eq)]
pub enum HashAlgorithm {
    /// HighwayHash, 64 bits, written as a decimal numeral.
    Highway,
    /// MD5, written in hexadecimal.
    Md5,
    /// SHA-256, written in hexadecimal.
    Sha2,
}

/// The MD5 digest of `data`, 16 bytes, as the `md-5` crate computes it.
pub uninterp spec fn md5_digest(data: Seq<u8>) -> Seq<u8>;

/// The SHA-256 digest of `data`, 32 bytes, as the `sha2` crate computes it.
pub uninterp spec fn sha256_digest(data: Seq<u8>) -> Seq<u8>;

/// The 64-bit HighwayHash of `data` under the four-word `key`, as the
/// `highway` crate computes it.
pub uninterp spec fn highway_hash64(key: Seq<u64>, data: Seq<u8>) -> u64;

/// An MD5 computation that can take its input in pieces (`md5::Md5`).
///
/// The type behind `md5::Md5` is bounded by traits of the `digest` crate that
/// Verus cannot take, so it is held in a struct that Verus does not look
/// into. What such a computation has taken is `md5_absorbed`.
#[verifier::external_body]
pub struct Md5Stream {
    inner: Md5,
}

/// A SHA-256 computation that can take its input in pieces (`sha2::Sha256`),
/// held like `Md5Stream`. What such a computation has taken is
/// `sha256_absorbed`.
#[verifier::external_body]
pub struct Sha256Stream {
    inner: Sha256,
}

/// `highway::HighwayHasher`, a HighwayHash computation that can take its
/// input in pieces. Verus does not look into it: what it has taken is
/// `highway_absorbed`, its key `highway_key`.
#[verifier::external_type_specification]
#[verifier::external_body]
pub struct ExHighwayHasher(HighwayHasher);

/// The bytes that an MD5 computation has taken so far, in order.
pub uninterp spec fn md5_absorbed(stream: Md5Stream) -> Seq<u8>;

/// The bytes that a SHA-256 computation has taken so far, in order.
pub uninterp spec fn sha256_absorbed(stream: Sha256Stream) -> Seq<u8>;

/// The bytes that a HighwayHash computation has taken so far, in order.
pub uninterp spec fn highway_absorbed(hasher: HighwayHasher) -> Seq<u8>;

/// The key that a HighwayHash computation was started with.
pub uninterp spec fn highway_key(hasher: HighwayHasher) -> Seq<u64>;

/// `Md5::new` of the `md-5` crate (`Digest::new`): a computation that has
/// taken no input yet.
#[verifier::external_body]
fn md5_start() -> (stream: Md5Stream)
    ensures
        md5_absorbed(stream) == Seq::<u8>::empty(),
{
    Md5Stream { inner: Md5::new() }
}

/// `Digest::update` on `md5::Md5`: the computation takes `data` after what it
/// has taken before. Not proved; the crate documents `update` as processing
/// the data and updating the state.
#[verifier::external_body]
fn md5_update(stream: &mut Md5Stream, data: &[u8])
    ensures
        md5_absorbed(*final(stream)) == md5_absorbed(*old(stream)) + data@,
{
    stream.inner.update(data)
}

/// `Digest::finalize` on `md5::Md5`: the MD5 digest of all that the
/// computation has taken. The digest itself is named, not stated.
#[verifier::external_body]
fn md5_finish(stream: Md5Stream) -> (digest: Vec<u8>)
    ensures
        digest@ == md5_digest(md5_absorbed(stream)),
{
    stream.inner.finalize().to_vec()
}

/// `Sha256::new` of the `sha2` crate (`Digest::new`): a computation that has
/// taken no input yet.
#[verifier::external_body]
fn sha256_start() -> (stream: Sha256Stream)
    ensures
        sha256_absorbed(stream) == Seq::<u8>::empty(),
{
    Sha256Stream { inner: Sha256::new() }
}

/// `Digest::update` on `sha2::Sha256`: the computation takes `data` after
/// what it has taken before. Not proved; the crate documents `update` as
/// processing the data and updating the state.
#[verifier::external_body]
fn sha256_update(stream: &mut Sha256Stream, data: &[u8])
    ensures
        sha256_absorbed(*final(stream)) == sha256_absorbed(*old(stream)) + data@,
{
    stream.inner.update(data)
}

/// `Digest::finalize` on `sha2::Sha256`: the SHA-256 digest of all that the
/// computation has taken. The digest itself is named, not stated.
#[verifier::external_body]
fn sha256_finish(stream: Sha256Stream) -> (digest: Vec<u8>)
    ensures
        digest@ == sha256_digest(sha256_absorbed(stream)),
{
    stream.inner.finalize().to_vec()
}

/// `HighwayHasher::new` of the `highway` crate: a computation under `key`
/// that has taken no input yet.
#[verifier::external_body]
fn highway_start(key: [u64; 4]) -> (hasher: HighwayHasher)
    ensures
        highway_absorbed(hasher) == Seq::<u8>::empty(),
        highway_key(hasher) == key@,
{
    HighwayHasher::new(Key(key))
}

/// `HighwayHash::append` on `HighwayHasher`: the computation takes `data`
/// after what it has taken before, and keeps its key. Not proved; the crate
/// documents hashing in one call as equivalent to appending the data.
#[verifier::external_body]
fn highway_append(hasher: &mut HighwayHasher, data: &[u8])
    ensures
        highway_absorbed(*final(hasher)) == highway_absorbed(*old(hasher)) + data@,
        highway_key(*final(hasher)) == highway_key(*old(hasher)),
{
    hasher.append(data)
}

/// `HighwayHash::finalize64` on `HighwayHasher`: the 64-bit hash, under the
/// computation's key, of all that it has taken. The hash itself is named, not
/// stated.
#[verifier::external_body]
fn highway_finish(hasher: HighwayHasher) -> (hash: u64)
    ensures
        hash == highway_hash64(highway_key(hasher), highway_absorbed(hasher)),
{
    hasher.finalize64()
}

/// The key under which single records are hashed with HighwayHash.
pub open spec fn record_key() -> Seq<u64> {
    seq![0u64, 0u64, 0u64, 0u64]
}

/// The key under which digests are folded with HighwayHash.
pub open spec fn fold_key() -> Seq<u64> {
    seq![1u64, 2u64, 3u64, 4u64]
}

/// The digest of a byte buffer under `algorithm`: the 64-bit HighwayHash as a
/// decimal numeral, or the MD5 or SHA-256 digest in hexadecimal.
pub open spec fn record_digest(algorithm: HashAlgorithm, data: Seq<u8>) -> Seq<char> {
    match algorithm {
        HashAlgorithm::Highway => decimal_digits(highway_hash64(record_key(), data) as nat),
        HashAlgorithm::Md5 => hex_digits(md5_digest(data)),
        HashAlgorithm::Sha2 => hex_digits(sha256_digest(data)),
    }
}

/// The UTF-8 bytes of the digests, one digest after the other.
pub open spec fn digest_text_bytes(digests: Seq<Seq<char>>) -> Seq<u8>
    decreases digests.len(),
{
    if digests.len() == 0 {
        Seq::empty()
    } else {
        digest_text_bytes(digests.drop_last()) + vstd::utf8::encode_utf8(digests.last())
    }
}

/// The numbers that the digests are decimal numerals of, each as eight bytes,
/// least significant byte first, one number after the other. A digest that is
/// no numeral of a 64-bit number is left out.
pub open spec fn digest_word_bytes(digests: Seq<Seq<char>>) -> Seq<u8>
    decreases digests.len(),
{
    if digests.len() == 0 {
        Seq::empty()
    } else {
        match parsed_decimal(digests.last()) {
            Some(word) => digest_word_bytes(digests.drop_last()) + spec_u64_to_le_bytes(word),
            None => digest_word_bytes(digests.drop_last()),
        }
    }
}

/// The aggregate digest of a sequence of digests under `algorithm`.
///
/// MD5 and SHA-256 digest the text of the digests, one after the other, and
/// the result is written in hexadecimal. HighwayHash, under the key 1, 2, 3,
/// 4, hashes the numbers that the digests are numerals of, and the result is
/// written as a decimal numeral; digests that are no such numerals are left
/// out.
pub open spec fn folded_digest(algorithm: HashAlgorithm, digests: Seq<Seq<char>>) -> Seq<char> {
    match algorithm {
        HashAlgorithm::Highway => decimal_digits(
            highway_hash64(fold_key(), digest_word_bytes(digests)) as nat,
        ),
        HashAlgorithm::Md5 => hex_digits(md5_digest(digest_text_bytes(digests))),
        HashAlgorithm::Sha2 => hex_digits(sha256_digest(digest_text_bytes(digests))),
    }
}

/// The fold under `algorithm` skips `digest`: the algorithm is HighwayHash,
/// and the digest is no decimal numeral of a 64-bit number.
pub open spec fn is_skipped(algorithm: HashAlgorithm, digest: Seq<char>) -> bool {
    algorithm is Highway && parsed_decimal(digest) is None
}

/// The positions among the first `n` of `digests` that the fold under
/// `algorithm` skips, in ascending order.
pub open spec fn skipped_among(algorithm: HashAlgorithm, digests: Seq<Seq<char>>, n: int) -> Seq<
    usize,
>
    decreases n,
{
    if n <= 0 {
        Seq::empty()
    } else if is_skipped(algorithm, digests[n - 1]) {
        skipped_among(algorithm, digests, n - 1).push((n - 1) as usize)
    } else {
        skipped_among(algorithm, digests, n - 1)
    }
}

/// MD5 and SHA-256 skip no digest.
pub proof fn lemma_nothing_skipped(algorithm: HashAlgorithm, digests: Seq<Seq<char>>, n: int)
    requires
        !(algorithm is Highway),
    ensures
        skipped_among(algorithm, digests, n) == Seq::<usize>::empty(),
    decreases n,
{
    if n > 0 {
        lemma_nothing_skipped(algorithm, digests, n - 1);
    }
}

/// The texts of a sequence of string slices.
pub open spec fn texts(hashes: Seq<&str>) -> Seq<Seq<char>> {
    Seq::new(hashes.len(), |i: int| hashes[i]@)
}

/// A sequence and its opposite strand have the same digest in canonical
/// mode, whether or not they hold symbols that are no bases.
pub proof fn lemma_digest_strand_invariant(algorithm: HashAlgorithm, bytes: Seq<u8>)
    ensures
        record_digest(algorithm, canonical_codes(encoded(reverse_complement(bytes))))
            == record_digest(algorithm, canonical_codes(encoded(bytes))),
{
    lemma_canonical_of_opposite_strand(bytes);
}

/// A HighwayHash digest of a record is the numeral of its hash, so a fold
/// with HighwayHash reads it back and skips none of them.
pub proof fn lemma_highway_digest_parses(data: Seq<u8>)
    ensures
        parsed_decimal(record_digest(HashAlgorithm::Highway, data)) == Some(
            highway_hash64(record_key(), data),
        ),
{
    lemma_parse_of_decimal_digits(highway_hash64(record_key(), data));
}

/// Computes the digest of a byte buffer.
pub fn calculate_hash(algorithm: &HashAlgorithm, sequence: &[u8]) -> (digest: String)
    ensures
        digest@ == record_digest(*algorithm, sequence@),
{
    match algorithm {
        HashAlgorithm::Highway => {
            let mut hasher = highway_start([0u64, 0u64, 0u64, 0u64]);
            highway_append(&mut hasher, sequence);
            assert(highway_key(hasher) =~= record_key());
            assert(highway_absorbed(hasher) =~= sequence@);
            decimal_string(highway_finish(hasher))
        },
        HashAlgorithm::Md5 => {
            let mut stream = md5_start();
            md5_update(&mut stream, sequence);
            assert(md5_absorbed(stream) =~= sequence@);
            let raw = md5_finish(stream);
            hex_string(raw.as_slice())
        },
        HashAlgorithm::Sha2 => {
            let mut stream = sha256_start();
            sha256_update(&mut stream, sequence);
            assert(sha256_absorbed(stream) =~= sequence@);
            let raw = sha256_finish(stream);
            hex_string(raw.as_slice())
        },
    }
}

/// Folds a sequence of digests, in the order given, into one aggregate
/// digest.
///
/// With HighwayHash each digest is read as a decimal numeral and fed to the
/// hash as eight bytes, least significant byte first, whatever the machine. A
/// digest that is no decimal numeral of a 64-bit number is skipped: it adds
/// nothing to the aggregate, and the fold goes on. `parse_decimal` tells a
/// caller which digests those are.
pub fn calculate_final_hash(algorithm: &HashAlgorithm, hashes: &[&str]) -> (digest: String)
    ensures
        digest@ == folded_digest(*algorithm, texts(hashes@)),
{
    let ghost all = texts(hashes@);
    match algorithm {
        HashAlgorithm::Highway => {
            let mut hasher = highway_start([1u64, 2u64, 3u64, 4u64]);
            assert(highway_key(hasher) =~= fold_key());
            let mut i: usize = 0;
            while i < hashes.len()
                invariant
                    i <= hashes.len(),
                    all == texts(hashes@),
                    highway_key(hasher) == fold_key(),
                    highway_absorbed(hasher) == digest_word_bytes(all.take(i as int)),
                decreases hashes.len() - i,
            {
                proof {
                    assert(all.take(i + 1).drop_last() =~= all.take(i as int));
                    assert(all.take(i + 1).last() == hashes@[i as int]@);
                }
                match parse_decimal(hashes[i]) {
                    Some(word) => {
                        let bytes = u64_to_le_bytes(word);
                        highway_append(&mut hasher, bytes.as_slice());
                    },
                    None => {},
                }
                i += 1;
            }
            assert(all.take(i as int) =~= all);
            decimal_string(highway_finish(hasher))
        },
        HashAlgorithm::Md5 => {
            let mut stream = md5_start();
            let mut i: usize = 0;
            while i < hashes.len()
                invariant
                    i <= hashes.len(),
                    all == texts(hashes@),
                    md5_absorbed(stream) == digest_text_bytes(all.take(i as int)),
                decreases hashes.len() - i,
            {
                proof {
                    assert(all.take(i + 1).drop_last() =~= all.take(i as int));
                    assert(all.take(i + 1).last() == hashes@[i as int]@);
                }
                md5_update(&mut stream, hashes[i].as_bytes());
                i += 1;
            }
            assert(all.take(i as int) =~= all);
            let raw = md5_finish(stream);
            hex_string(raw.as_slice())
        },
        HashAlgorithm::Sha2 => {
            let mut stream = sha256_start();
            let mut i: usize = 0;
            while i < hashes.len()
                invariant
                    i <= hashes.len(),
                    all == texts(hashes@),
                    sha256_absorbed(stream) == digest_text_bytes(all.take(i as int)),
                decreases hashes.len() - i,
            {
                proof {
                    assert(all.take(i + 1).drop_last() =~= all.take(i as int));
                    assert(all.take(i + 1).last() == hashes@[i as int]@);
                }
                sha256_update(&mut stream, hashes[i].as_bytes());
                i += 1;
            }
            assert(all.take(i as int) =~= all);
            let raw = sha256_finish(stream);
            hex_string(raw.as_slice())
        },
    }
}

/// Finds the digests that `calculate_final_hash` skips under `algorithm`:
/// their positions in `hashes`, in ascending order. A caller that wants to
/// report them can do so.
pub fn skipped_by_fold(algorithm: &HashAlgorithm, hashes: &[&str]) -> (skipped: Vec<usize>)
    ensures
        skipped@ == skipped_among(*algorithm, texts(hashes@), hashes@.len() as int),
{
    let ghost all = texts(hashes@);
    let mut skipped: Vec<usize> = Vec::new();
    match algorithm {
        HashAlgorithm::Highway => {
            let mut i: usize = 0;
            while i < hashes.len()
                invariant
                    i <= hashes.len(),
                    all == texts(hashes@),
                    *algorithm is Highway,
                    skipped@ == skipped_among(*algorithm, all, i as int),
                decreases hashes.len() - i,
            {
                if parse_decimal(hashes[i]).is_none() {
                    skipped.push(i);
                }
                i += 1;
            }
        },
        _ => {
            proof {
                lemma_nothing_skipped(*algorithm, all, hashes@.len() as int);
            }
        },
    }
    skipped
}

} // verus!
