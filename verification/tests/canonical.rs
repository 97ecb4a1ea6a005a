use seqhash::canonical::{canonicalize, encode, encode_for_hashing, encode_reverse_complement};

fn opposite_strand(bytes: &[u8]) -> Vec<u8> {
    bytes
        .iter()
        .rev()
        .map(|&x| match x {
            b'A' => b'T',
            b'T' => b'A',
            b'C' => b'G',
            b'G' => b'C',
            b'a' => b't',
            b't' => b'a',
            b'c' => b'g',
            b'g' => b'c',
            other => other,
        })
        .collect()
}

fn reverse_complement_of_codes(codes: &[u8]) -> Vec<u8> {
    codes.iter().rev().map(|&c| if (1..=4).contains(&c) { 5 - c } else { c }).collect()
}

fn samples() -> Vec<&'static [u8]> {
    vec![
        b"", b"A", b"T", b"N", b"ACGT", b"TGCA", b"ATCG", b"CGAT", b"AATT", b"ACNT", b"acgt",
        b"GGGGCCCC", b"ANNT", b"NNNN", b"TTTTTTTA", b"AC-GT", b"GATTACA", b"CCCCCCCCCCCCCCCG",
    ]
}

#[test]
fn encode_gives_one_code_for_each_byte() {
    assert_eq!(encode(b"ACGT"), vec![1, 2, 3, 4]);
    assert_eq!(encode(b"acgt"), vec![1, 2, 3, 4]);
    assert_eq!(encode(b"TGCA"), vec![4, 3, 2, 1]);
    assert_eq!(encode(b""), Vec::<u8>::new());
    for sample in samples() {
        assert_eq!(encode(sample).len(), sample.len());
    }
}

#[test]
fn encode_maps_unknown_symbols_to_zero() {
    assert_eq!(encode(b"ACNT"), vec![1, 2, 0, 4]);
    assert_eq!(encode(b"N"), vec![0]);
    assert_eq!(encode(b"A C\n9"), vec![1, 0, 2, 0, 0]);
    assert_eq!(encode(b"RYKM"), vec![0, 0, 0, 0]);
}

#[test]
fn encode_reverse_complement_reverses_and_complements() {
    assert_eq!(encode_reverse_complement(b"ACGT"), vec![1, 2, 3, 4]);
    assert_eq!(encode_reverse_complement(b"AACC"), vec![3, 3, 4, 4]);
    assert_eq!(encode_reverse_complement(b"TGCA"), vec![4, 3, 2, 1]);
    assert_eq!(encode_reverse_complement(b"ACNT"), vec![1, 0, 3, 4]);
    assert_eq!(encode_reverse_complement(b"a"), vec![4]);
    assert_eq!(encode_reverse_complement(b""), Vec::<u8>::new());
}

#[test]
fn encode_reverse_complement_is_the_reverse_complement_of_encode() {
    for sample in samples() {
        assert_eq!(encode_reverse_complement(sample), reverse_complement_of_codes(&encode(sample)));
        assert_eq!(encode_reverse_complement(sample), encode(&opposite_strand(sample)));
    }
}

#[test]
fn canonicalize_picks_the_smaller_sequence() {
    assert_eq!(canonicalize(vec![4, 3, 2, 1], vec![1, 2, 3, 4]), vec![1, 2, 3, 4]);
    assert_eq!(canonicalize(vec![1, 2, 3, 4], vec![4, 3, 2, 1]), vec![1, 2, 3, 4]);
    assert_eq!(canonicalize(vec![1, 2], vec![1, 2, 0]), vec![1, 2]);
    assert_eq!(canonicalize(vec![1, 2, 0], vec![1, 2]), vec![1, 2]);
    assert_eq!(canonicalize(vec![2], vec![1, 4, 4]), vec![1, 4, 4]);
    assert_eq!(canonicalize(vec![], vec![]), Vec::<u8>::new());
    assert_eq!(canonicalize(vec![0], vec![]), Vec::<u8>::new());
}

#[test]
fn canonicalize_keeps_the_forward_form_on_a_tie() {
    assert_eq!(canonicalize(vec![1, 2, 3, 4], vec![1, 2, 3, 4]), vec![1, 2, 3, 4]);
    assert_eq!(encode_for_hashing(b"ACGT", true), vec![1, 2, 3, 4]);
    assert_eq!(encode_for_hashing(b"AATT", true), vec![1, 1, 4, 4]);
}

#[test]
fn canonicalize_agrees_with_the_order_of_vectors() {
    let codes: Vec<Vec<u8>> = vec![
        vec![],
        vec![0],
        vec![1],
        vec![1, 0],
        vec![1, 1],
        vec![4],
        vec![4, 4, 4],
        vec![255],
        vec![1, 2, 3, 4],
        vec![1, 2, 3],
    ];
    for forward in &codes {
        for reverse in &codes {
            let expected = if reverse < forward { reverse.clone() } else { forward.clone() };
            assert_eq!(canonicalize(forward.clone(), reverse.clone()), expected);
        }
    }
}

#[test]
fn canonical_form_is_strand_invariant() {
    assert_eq!(encode_for_hashing(b"TGCA", true), encode_for_hashing(b"TGCA", true));
    assert_eq!(encode_for_hashing(b"GATTACA", true), encode_for_hashing(b"TGTAATC", true));
    assert_eq!(encode_for_hashing(b"TTTT", true), vec![1, 1, 1, 1]);
    assert_eq!(encode_for_hashing(b"AAAA", true), vec![1, 1, 1, 1]);
    for sample in samples() {
        assert_eq!(
            encode_for_hashing(sample, true),
            encode_for_hashing(&opposite_strand(sample), true)
        );
    }
}

#[test]
fn canonical_form_is_idempotent() {
    for sample in samples() {
        let once = encode_for_hashing(sample, true);
        let twice = canonicalize(once.clone(), reverse_complement_of_codes(&once));
        assert_eq!(twice, once);
    }
}

#[test]
fn without_canonical_mode_the_encoding_is_used_as_it_is() {
    assert_eq!(encode_for_hashing(b"TGCA", false), vec![4, 3, 2, 1]);
    assert_eq!(encode_for_hashing(b"TTTT", false), vec![4, 4, 4, 4]);
    for sample in samples() {
        assert_eq!(encode_for_hashing(sample, false), encode(sample));
    }
}

#[test]
fn tgca_is_its_own_reverse_complement() {
    assert_eq!(encode_reverse_complement(b"TGCA"), encode(b"TGCA"));
    assert_eq!(encode_for_hashing(b"TGCA", true), vec![4, 3, 2, 1]);
}
