[package]
name = "seqhash"
version = "0.1.0"
edition = "2021"
publish = false

[dependencies]
anyhow = "1"
clap = { version = "4", features = ["derive"] }
env_logger = "0.10"
highway = "1"
log = "0.4"
md-5 = "0.10"
niffler = { version = "2", default-features = false, features = ["gz"] }
noodles = { version = "*", features = ["fasta", "fastq"] }
owo-colors = { version = "3", features = ["supports-colors"] }
sha2 = "0.10"

[dev-dependencies]
hex = "0.4"
