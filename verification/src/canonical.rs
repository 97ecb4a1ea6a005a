//! Encoding of raw sequence bytes and the choice of a strand-independent form.
//!
//! A sequence can be stored as either of its two strands. The canonical form
//! of an encoded sequence is the smaller, in lexicographic order, of the
//! sequence and its reverse complement, so both strands have the same one.

use vstd::prelude::*;
use crate::lexical::{
    bytes_less, lemma_lex_lt_asymmetric, lemma_lex_lt_irreflexive, lemma_lex_min_symmetric,
    lex_le, lex_lt, lex_min,
};
use crate::parser::{base_code, complement_code, lookup, rc_lookup};

verus! {

/// The codes of the bytes of `bytes`, in order.
pub open spec fn encoded(bytes: Seq<u8>) -> Seq<u8> {
    Seq::new(bytes.len(), |i: int| base_code(bytes[i]))
}

/// The reverse complement of an encoded sequence: each code replaced by its
/// complement, in reverse order.
pub open spec fn reverse_complement_codes(codes: Seq<u8>) -> Seq<u8> {
    Seq::new(codes.len(), |i: int| complement_code(codes[codes.len() - 1 - i]))
}

/// The canonical form of an encoded sequence: its reverse complement where
/// that comes first in lexicographic order, else the sequence itself.
pub open spec fn canonical_codes(codes: Seq<u8>) -> Seq<u8> {
    lex_min(codes, reverse_complement_codes(codes))
}

/// The base that pairs with the base `x`, in the case of `x`. A byte that is
/// no base is left as it is.
pub open spec fn complement_base(x: u8) -> u8 {
    if x == 65 {
        84
    } else if x == 84 {
        65
    } else if x == 67 {
        71
    } else if x == 71 {
        67
    } else if x == 97 {
        116
    } else if x == 116 {
        97
    } else if x == 99 {
        103
    } else if x == 103 {
        99
    } else {
        x
    }
}

/// The opposite strand of a raw sequence, read in its own direction.
pub open spec fn reverse_complement(bytes: Seq<u8>) -> Seq<u8> {
    Seq::new(bytes.len(), |i: int| complement_base(bytes[bytes.len() - 1 - i]))
}

/// Every code is at most 4.
pub open spec fn is_encoded(codes: Seq<u8>) -> bool {
    forall|i: int| 0 <= i < codes.len() ==> codes[i] <= 4
}

/// Encoding yields codes, one for each byte.
pub proof fn lemma_encoded_is_encoded(bytes: Seq<u8>)
    ensures
        is_encoded(encoded(bytes)),
        encoded(bytes).len() == bytes.len(),
{
}

/// Taking the reverse complement twice gives the sequence back.
pub proof fn lemma_reverse_complement_involution(codes: Seq<u8>)
    ensures
        reverse_complement_codes(reverse_complement_codes(codes)) == codes,
{
    assert(reverse_complement_codes(reverse_complement_codes(codes)) =~= codes);
}

/// Encoding the opposite strand gives the reverse complement of the encoding.
pub proof fn lemma_encoded_reverse_complement(bytes: Seq<u8>)
    ensures
        encoded(reverse_complement(bytes)) == reverse_complement_codes(encoded(bytes)),
{
    assert(encoded(reverse_complement(bytes)) =~= reverse_complement_codes(encoded(bytes)));
}

/// The canonical form is strand-invariant: an encoded sequence and its
/// reverse complement have the same canonical form.
pub proof fn lemma_canonical_strand_invariant(codes: Seq<u8>)
    ensures
        canonical_codes(reverse_complement_codes(codes)) == canonical_codes(codes),
{
    lemma_reverse_complement_involution(codes);
    lemma_lex_min_symmetric(codes, reverse_complement_codes(codes));
}

/// The canonical form is strand-invariant on raw sequences: a sequence and
/// its opposite strand are encoded to the same canonical form.
pub proof fn lemma_canonical_of_opposite_strand(bytes: Seq<u8>)
    ensures
        canonical_codes(encoded(reverse_complement(bytes))) == canonical_codes(encoded(bytes)),
{
    lemma_encoded_reverse_complement(bytes);
    lemma_canonical_strand_invariant(encoded(bytes));
}

/// Taking the canonical form is idempotent.
pub proof fn lemma_canonical_idempotent(codes: Seq<u8>)
    ensures
        canonical_codes(canonical_codes(codes)) == canonical_codes(codes),
{
    let rc = reverse_complement_codes(codes);
    lemma_reverse_complement_involution(codes);
    if lex_lt(rc, codes) {
        lemma_lex_lt_asymmetric(rc, codes);
    }
}

/// The canonical form of a sequence is the sequence or its reverse
/// complement, and neither of the two comes before it.
pub proof fn lemma_canonical_is_least(codes: Seq<u8>)
    ensures
        canonical_codes(codes) == codes || canonical_codes(codes) == reverse_complement_codes(
            codes,
        ),
        lex_le(canonical_codes(codes), codes),
        lex_le(canonical_codes(codes), reverse_complement_codes(codes)),
{
    let rc = reverse_complement_codes(codes);
    lemma_lex_lt_irreflexive(codes);
    lemma_lex_lt_irreflexive(rc);
    if lex_lt(rc, codes) {
        lemma_lex_lt_asymmetric(rc, codes);
    }
}

/// Encodes raw sequence bytes, one code for each byte.
pub fn encode(bytes: &[u8]) -> (codes: Vec<u8>)
    ensures
        codes@ == encoded(bytes@),
{
    let mut codes: Vec<u8> = Vec::with_capacity(bytes.len());
    let mut i: usize = 0;
    while i < bytes.len()
        invariant
            i <= bytes.len(),
            codes@ == encoded(bytes@.take(i as int)),
        decreases bytes.len() - i,
    {
        codes.push(lookup(bytes[i]));
        i += 1;
        assert(codes@ =~= encoded(bytes@.take(i as int)));
    }
    assert(bytes@.take(i as int) =~= bytes@);
    codes
}

/// Encodes the reverse complement of raw sequence bytes: the complement code
/// of each byte, last byte first.
pub fn encode_reverse_complement(bytes: &[u8]) -> (codes: Vec<u8>)
    ensures
        codes@ == reverse_complement_codes(encoded(bytes@)),
{
    let n = bytes.len();
    let mut codes: Vec<u8> = Vec::with_capacity(n);
    let mut i: usize = n;
    while i > 0
        invariant
            n == bytes.len(),
            i <= n,
            codes@.len() == n - i,
            forall|j: int|
                0 <= j < codes@.len() ==> codes@[j] == complement_code(
                    base_code(bytes@[n - 1 - j]),
                ),
        decreases i,
    {
        i -= 1;
        codes.push(rc_lookup(bytes[i]));
    }
    assert(codes@ =~= reverse_complement_codes(encoded(bytes@)));
    codes
}

/// Picks the canonical one of an encoded sequence and its encoded reverse
/// complement: the reverse complement where it comes first in lexicographic
/// order, else the forward sequence.
pub fn canonicalize(forward: Vec<u8>, reverse_complement: Vec<u8>) -> (codes: Vec<u8>)
    ensures
        codes@ == lex_min(forward@, reverse_complement@),
{
    if bytes_less(reverse_complement.as_slice(), forward.as_slice()) {
        reverse_complement
    } else {
        forward
    }
}

/// The codes that stand for a raw sequence when it is hashed: its canonical
/// form in canonical mode, else its encoding as it is.
pub open spec fn hashed_codes(bytes: Seq<u8>, canonical: bool) -> Seq<u8> {
    if canonical {
        canonical_codes(encoded(bytes))
    } else {
        encoded(bytes)
    }
}

/// Encodes raw sequence bytes for hashing, in canonical mode or not.
pub fn encode_for_hashing(bytes: &[u8], canonical: bool) -> (codes: Vec<u8>)
    ensures
        codes@ == hashed_codes(bytes@, canonical),
{
    let forward = encode(bytes);
    if canonical {
        let reverse = encode_reverse_complement(bytes);
        canonicalize(forward, reverse)
    } else {
        forward
    }
}

} // verus!
