//! Strand-independent content fingerprints for nucleotide sequence records.

pub mod aggregate;
pub mod canonical;
pub mod cli;
pub mod duplicates;
pub mod hashers;
pub mod lexical;
pub mod parser;
pub mod pipeline;
pub mod report;
pub mod sorting;
pub mod text;
