use std::hash::Hasher;

use highway::{HighwayHash, HighwayHasher, Key};
use md5::{Digest, Md5};
use seqhash::hashers::{calculate_final_hash, calculate_hash, skipped_by_fold, HashAlgorithm};
use sha2::Sha256;

#[test]
fn test_highway_same() {
    let sequence = b"ATCG";
    let sequence2 = b"ATCG";
    let highway_hash = calculate_hash(&HashAlgorithm::Highway, sequence);
    let highway_hash2 = calculate_hash(&HashAlgorithm::Highway, sequence2);
    assert_eq!(highway_hash, highway_hash2);
}

#[test]
fn test_md5_same() {
    let sequence = b"ATCG";
    let sequence2 = b"ATCG";
    let md5_hash = calculate_hash(&HashAlgorithm::Md5, sequence);
    let md5_hash2 = calculate_hash(&HashAlgorithm::Md5, sequence2);
    assert_eq!(md5_hash, md5_hash2);
}

#[test]
fn test_sha2_same() {
    let sequence = b"ATCG";
    let sequence2 = b"ATCG";
    let sha2_hash = calculate_hash(&HashAlgorithm::Sha2, sequence);
    let sha2_hash2 = calculate_hash(&HashAlgorithm::Sha2, sequence2);
    assert_eq!(sha2_hash, sha2_hash2);
}

#[test]
fn test_highway_different() {
    let sequence = b"ATCG";
    let sequence2 = b"CGAT";
    let highway_hash = calculate_hash(&HashAlgorithm::Highway, sequence);
    let highway_hash2 = calculate_hash(&HashAlgorithm::Highway, sequence2);
    assert_ne!(highway_hash, highway_hash2);
}

#[test]
fn test_md5_different() {
    let sequence = b"ATCG";
    let sequence2 = b"CGAT";
    let md5_hash = calculate_hash(&HashAlgorithm::Md5, sequence);
    let md5_hash2 = calculate_hash(&HashAlgorithm::Md5, sequence2);
    assert_ne!(md5_hash, md5_hash2);
}

#[test]
fn test_sha2_different() {
    let sequence = b"ATCG";
    let sequence2 = b"CGAT";
    let sha2_hash = calculate_hash(&HashAlgorithm::Sha2, sequence);
    let sha2_hash2 = calculate_hash(&HashAlgorithm::Sha2, sequence2);
    assert_ne!(sha2_hash, sha2_hash2);
}

#[test]
fn md5_of_known_inputs() {
    assert_eq!(calculate_hash(&HashAlgorithm::Md5, b""), "d41d8cd98f00b204e9800998ecf8427e");
    assert_eq!(calculate_hash(&HashAlgorithm::Md5, b"abc"), "900150983cd24fb0d6963f7d28e17f72");
    assert_eq!(
        calculate_hash(&HashAlgorithm::Md5, &[1, 2, 3, 4]),
        "08d6c05a21512a79a1dfeb9d2a8f262f"
    );
}

#[test]
fn sha256_of_known_inputs() {
    assert_eq!(
        calculate_hash(&HashAlgorithm::Sha2, b""),
        "e3b0c44298fc1c149afbf4c8996fb92427ae41e4649b934ca495991b7852b855"
    );
    assert_eq!(
        calculate_hash(&HashAlgorithm::Sha2, b"abc"),
        "ba7816bf8f01cfea414140de5dae2223b00361a396177a9cb410ff61f20015ad"
    );
}

#[test]
fn md5_and_sha256_agree_with_one_shot_digests() {
    let inputs: Vec<Vec<u8>> = vec![
        vec![],
        vec![0],
        b"ATCG".to_vec(),
        (0..=255u8).collect(),
        vec![7u8; 1000],
    ];
    for input in &inputs {
        assert_eq!(calculate_hash(&HashAlgorithm::Md5, input), hex::encode(Md5::digest(input)));
        assert_eq!(
            calculate_hash(&HashAlgorithm::Sha2, input),
            hex::encode(Sha256::digest(input))
        );
    }
}

#[test]
fn highway_record_hash_uses_the_default_key() {
    let inputs: Vec<Vec<u8>> = vec![vec![], vec![255], b"ATCG".to_vec(), vec![3u8; 100]];
    for input in &inputs {
        let expected = HighwayHasher::default().hash64(input).to_string();
        assert_eq!(calculate_hash(&HashAlgorithm::Highway, input), expected);
        let keyed = HighwayHasher::new(Key([0, 0, 0, 0])).hash64(input).to_string();
        assert_eq!(calculate_hash(&HashAlgorithm::Highway, input), keyed);
    }
}

#[test]
fn highway_record_hash_is_a_decimal_numeral() {
    let digest = calculate_hash(&HashAlgorithm::Highway, b"ATCG");
    assert!(!digest.is_empty());
    assert!(digest.chars().all(|c| c.is_ascii_digit()));
    assert_eq!(digest.parse::<u64>().unwrap().to_string(), digest);
}

#[test]
fn md5_fold_digests_the_text_of_the_digests_in_order() {
    assert_eq!(
        calculate_final_hash(&HashAlgorithm::Md5, &["abc"]),
        "900150983cd24fb0d6963f7d28e17f72"
    );
    assert_eq!(
        calculate_final_hash(&HashAlgorithm::Md5, &["a", "bc"]),
        "900150983cd24fb0d6963f7d28e17f72"
    );
    assert_eq!(
        calculate_final_hash(
            &HashAlgorithm::Md5,
            &["08d6c05a21512a79a1dfeb9d2a8f262f", "08d6c05a21512a79a1dfeb9d2a8f262f"]
        ),
        "1b3e046be5aaebd5f24ac05e770bb7a6"
    );
    assert_eq!(calculate_final_hash(&HashAlgorithm::Md5, &[]), "d41d8cd98f00b204e9800998ecf8427e");
}

#[test]
fn sha256_fold_digests_the_text_of_the_digests_in_order() {
    assert_eq!(
        calculate_final_hash(&HashAlgorithm::Sha2, &["ab", "c"]),
        "ba7816bf8f01cfea414140de5dae2223b00361a396177a9cb410ff61f20015ad"
    );
    assert_eq!(
        calculate_final_hash(&HashAlgorithm::Sha2, &[]),
        "e3b0c44298fc1c149afbf4c8996fb92427ae41e4649b934ca495991b7852b855"
    );
}

#[test]
fn cryptographic_folds_depend_on_the_order() {
    assert_ne!(
        calculate_final_hash(&HashAlgorithm::Md5, &["ab", "cd"]),
        calculate_final_hash(&HashAlgorithm::Md5, &["cd", "ab"])
    );
    assert_ne!(
        calculate_final_hash(&HashAlgorithm::Sha2, &["ab", "cd"]),
        calculate_final_hash(&HashAlgorithm::Sha2, &["cd", "ab"])
    );
}

fn highway_fold_by_words(digests: &[&str]) -> String {
    let mut hasher = HighwayHasher::new(Key([1, 2, 3, 4]));
    for digest in digests {
        if let Ok(value) = digest.parse::<u64>() {
            hasher.write_u64(value);
        }
    }
    hasher.finalize64().to_string()
}

#[test]
fn highway_fold_hashes_the_numbers_under_the_fixed_key() {
    let lists: Vec<Vec<&str>> = vec![
        vec![],
        vec!["0"],
        vec!["1", "2", "3"],
        vec!["18446744073709551615", "42"],
        vec!["12345678901234567890", "12345678901234567890"],
    ];
    for list in &lists {
        assert_eq!(calculate_final_hash(&HashAlgorithm::Highway, list), highway_fold_by_words(list));
    }
}

#[test]
fn highway_fold_feeds_eight_bytes_for_each_number() {
    let mut hasher = HighwayHasher::new(Key([1, 2, 3, 4]));
    hasher.append(&[1, 0, 0, 0, 0, 0, 0, 0]);
    hasher.append(&[0, 1, 0, 0, 0, 0, 0, 0]);
    let expected = hasher.finalize64().to_string();
    assert_eq!(calculate_final_hash(&HashAlgorithm::Highway, &["1", "256"]), expected);
}

#[test]
fn highway_fold_skips_digests_that_are_no_numbers() {
    let clean = calculate_final_hash(&HashAlgorithm::Highway, &["17", "99"]);
    assert_eq!(
        calculate_final_hash(&HashAlgorithm::Highway, &["17", "not a number", "99"]),
        clean
    );
    assert_eq!(
        calculate_final_hash(
            &HashAlgorithm::Highway,
            &["", "17", "18446744073709551616", "99", "-1", "0afb83810ccda4270ccbb36128d7258b"]
        ),
        clean
    );
    assert_eq!(
        calculate_final_hash(&HashAlgorithm::Highway, &["x"]),
        calculate_final_hash(&HashAlgorithm::Highway, &[])
    );
}

#[test]
fn highway_fold_depends_on_the_order() {
    assert_ne!(
        calculate_final_hash(&HashAlgorithm::Highway, &["1", "2"]),
        calculate_final_hash(&HashAlgorithm::Highway, &["2", "1"])
    );
}

#[test]
fn record_hash_and_fold_may_use_different_algorithms() {
    let record = calculate_hash(&HashAlgorithm::Highway, &[1, 2, 3, 4]);
    let folded = calculate_final_hash(&HashAlgorithm::Md5, &[record.as_str()]);
    assert_eq!(folded, hex::encode(Md5::digest(record.as_bytes())));
    let record = calculate_hash(&HashAlgorithm::Md5, &[1, 2, 3, 4]);
    assert_eq!(
        calculate_final_hash(&HashAlgorithm::Highway, &[record.as_str()]),
        calculate_final_hash(&HashAlgorithm::Highway, &[])
    );
}

#[test]
fn the_skipped_digests_of_a_highway_fold_are_found() {
    let digests = ["17", "x", "", "99", "18446744073709551616", "+4", "0afb"];
    assert_eq!(skipped_by_fold(&HashAlgorithm::Highway, &digests), vec![1, 2, 4, 6]);
    assert_eq!(skipped_by_fold(&HashAlgorithm::Highway, &["1", "2"]), Vec::<usize>::new());
    assert_eq!(skipped_by_fold(&HashAlgorithm::Highway, &[]), Vec::<usize>::new());
    let kept: Vec<&str> = vec!["17", "99", "+4"];
    assert_eq!(
        calculate_final_hash(&HashAlgorithm::Highway, &digests),
        calculate_final_hash(&HashAlgorithm::Highway, &kept)
    );
}

#[test]
fn cryptographic_folds_skip_nothing() {
    let digests = ["17", "x", "", "99"];
    assert_eq!(skipped_by_fold(&HashAlgorithm::Md5, &digests), Vec::<usize>::new());
    assert_eq!(skipped_by_fold(&HashAlgorithm::Sha2, &digests), Vec::<usize>::new());
    assert_ne!(
        calculate_final_hash(&HashAlgorithm::Md5, &digests),
        calculate_final_hash(&HashAlgorithm::Md5, &["17", "99"])
    );
}

#[test]
fn highway_digests_of_records_are_never_skipped() {
    let inputs: Vec<Vec<u8>> = vec![vec![], vec![1, 2, 3, 4], vec![0; 33], vec![4; 7]];
    let digests: Vec<String> =
        inputs.iter().map(|input| calculate_hash(&HashAlgorithm::Highway, input)).collect();
    let slices: Vec<&str> = digests.iter().map(|d| d.as_str()).collect();
    assert_eq!(skipped_by_fold(&HashAlgorithm::Highway, &slices), Vec::<usize>::new());
}
