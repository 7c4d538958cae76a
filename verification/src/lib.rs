//! Likelihood evaluation and sufficient-statistics accumulation for a
//! generative model of V(D)J immune-receptor gene assembly.
//!
//! The crate enumerates candidate recombination events for an observed
//! nucleotide sequence, computes each event's likelihood under categorical,
//! insertion and error sub-models, prunes negligible events, tracks the most
//! likely ones, and accumulates weighted counts from which refreshed model
//! parameters are produced.
//!
//! All probabilities are exact fixed-point integers: a value `p` stands for
//! the fraction `p / SCALE`. This keeps every arithmetic step a statement
//! about integers that the verifier can check.
#![verifier::loop_isolation(false)]

pub mod error;
pub mod prob;
pub mod table;
pub mod feature;
pub mod sequence;
pub mod inference;
pub mod laws;
