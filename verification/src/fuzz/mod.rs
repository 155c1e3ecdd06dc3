//! Fuzzing of the wire protocol: generation and mutation of byte strings,
//! signatures, the corpus, and floods for a live broker.

pub mod corpus;
pub mod flood;
pub mod generate;
pub mod mutate;
pub mod random;
pub mod signature;

pub use corpus::{run_bounded, Fuzzer, Stats};
pub use generate::{push_frame, rand_op, seed_corpus};
pub use signature::{mutate_and_run, sig_of, SigSet};
