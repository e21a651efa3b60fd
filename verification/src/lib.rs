//! A small arithmetization toolkit: constrained field arithmetic (addition and
//! multiplication gates) feeding a duplex sponge built over a pluggable
//! fixed-width permutation, together with the orchestration that hashes the
//! derived value `(a + b) * c` and decides whether a claimed public output
//! matches it.

pub mod circuit;
pub mod field;
pub mod permutation;
pub mod transcript_sponge;
