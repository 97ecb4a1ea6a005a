//! The options of a run, and the check of the input path.

use vstd::prelude::*;
use vstd::std_specs::iter::IteratorSpec;
use vstd::string::StringExecFns;
use crate::hashers::HashAlgorithm;
use crate::parser::FileType;

verus! {

/// The options of a run.
#[derive(Clone, Debug, PartialEq, Eq)]
pub struct Cli {
    /// The input file, or `-` for the standard input.
    pub input: String,
    /// List the digest of each record.
    pub individual_output: bool,
    /// Hash the canonical form of each sequence.
    pub canonical: bool,
    /// Take the input for FASTA.
    pub fasta: bool,
    /// Take the input for FASTQ.
    pub fastq: bool,
    /// List the duplicates.
    pub show_duplicates: bool,
    /// The algorithm for the digest of each record.
    pub seqhash: HashAlgorithm,
    /// The algorithm for the aggregate digest.
    pub finalhash: HashAlgorithm,
}

/// The format that the options force, if they force one: FASTA where both
/// are asked for.
pub open spec fn forced_type(fasta: bool, fastq: bool) -> Option<FileType> {
    if fasta {
        Some(FileType::Fasta)
    } else if fastq {
        Some(FileType::Fastq)
    } else {
        None
    }
}

impl Cli {
    /// The format that the options force on the input, or `None` where the
    /// format is to be guessed from the input.
    pub fn forced_file_type(&self) -> (forced: Option<FileType>)
        ensures
            forced == forced_type(self.fasta, self.fastq),
    {
        if self.fasta {
            Some(FileType::Fasta)
        } else if self.fastq {
            Some(FileType::Fastq)
        } else {
            None
        }
    }
}

/// The text `-`, which stands for the standard input.
pub open spec fn is_stdin_name(s: Seq<char>) -> bool {
    s.len() == 1 && s[0] == '-'
}

/// The message for an input path that names no file.
pub open spec fn missing_file_message(s: Seq<char>) -> Seq<char> {
    "File does not exist: "@ + s
}

/// Whether `s` is the text `-`.
pub fn names_stdin(s: &str) -> (r: bool)
    ensures
        r == is_stdin_name(s@),
{
    let mut chars = s.chars();
    match chars.next() {
        None => false,
        Some(first) => {
            assert(first == s@[0]);
            match chars.next() {
                None => {
                    assert(s@.skip(0).drop_first().len() == 0);
                    first == '-'
                },
                Some(_) => {
                    assert(s@.skip(0).drop_first().len() > 0);
                    false
                },
            }
        },
    }
}

/// Accepts an input path: `-` is accepted as it is, any other path if a file
/// of that name exists, which the caller has looked up (`exists`). A path
/// that is not accepted gives the message that says so.
pub fn check_input_exists(s: &str, exists: bool) -> (checked: Result<String, String>)
    ensures
        checked is Ok <==> is_stdin_name(s@) || exists,
        checked matches Ok(path) ==> path@ == s@,
        checked matches Err(message) ==> message@ == missing_file_message(s@),
{
    if names_stdin(s) || exists {
        Ok(String::from_str(s))
    } else {
        Err(String::from_str("File does not exist: ").concat(s))
    }
}

} // verus!
