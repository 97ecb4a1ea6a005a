use seqhash::cli::{check_input_exists, names_stdin, Cli};
use seqhash::hashers::HashAlgorithm;
use seqhash::parser::FileType;

fn options(fasta: bool, fastq: bool) -> Cli {
    Cli {
        input: "reads.fa".to_string(),
        individual_output: false,
        canonical: false,
        fasta,
        fastq,
        show_duplicates: false,
        seqhash: HashAlgorithm::Highway,
        finalhash: HashAlgorithm::Md5,
    }
}

#[test]
fn stdin_is_accepted_without_a_file() {
    assert_eq!(check_input_exists("-", false), Ok("-".to_string()));
    assert_eq!(check_input_exists("-", true), Ok("-".to_string()));
}

#[test]
fn an_existing_file_is_accepted() {
    assert_eq!(check_input_exists("reads.fa", true), Ok("reads.fa".to_string()));
    assert_eq!(check_input_exists("", true), Ok(String::new()));
}

#[test]
fn a_missing_file_is_refused_with_a_message() {
    assert_eq!(
        check_input_exists("reads.fa", false),
        Err("File does not exist: reads.fa".to_string())
    );
    assert_eq!(check_input_exists("", false), Err("File does not exist: ".to_string()));
    assert_eq!(check_input_exists("--", false), Err("File does not exist: --".to_string()));
    assert_eq!(check_input_exists("- ", false), Err("File does not exist: - ".to_string()));
}

#[test]
fn only_a_single_hyphen_names_stdin() {
    assert!(names_stdin("-"));
    assert!(!names_stdin(""));
    assert!(!names_stdin("--"));
    assert!(!names_stdin("a"));
    assert!(!names_stdin("-a"));
    assert!(!names_stdin("\u{2212}"));
}

#[test]
fn the_options_can_force_a_format() {
    assert_eq!(options(true, false).forced_file_type(), Some(FileType::Fasta));
    assert_eq!(options(false, true).forced_file_type(), Some(FileType::Fastq));
    assert_eq!(options(false, false).forced_file_type(), None);
    assert_eq!(options(true, true).forced_file_type(), Some(FileType::Fasta));
}
