//! Commitment-and-verification arithmetic for a polynomial commitment scheme.
//!
//! The crate provides the algebra a verifier needs around an inner-product
//! opening argument: homomorphic commitments made of curve-point chunks,
//! challenge derivation from a transcript sponge, the challenge polynomial
//! induced by folding rounds, and the batch-combination engine that folds many
//! (commitment, evaluation) claims into a single randomized check.
//!
//! The commitment group is any prime-order abelian group. To keep every
//! group-law argument within reach of the verifier, the crate instantiates it
//! with the additive group of integers modulo a 31-bit prime, whose scalar
//! field is the same ring; the algebra proved here (linearity, the
//! continuous-exponent rule, challenge-polynomial identities) is stated over
//! that model.

pub mod challenge_poly;
pub mod columns;
pub mod combination;
pub mod commitment;
pub mod curve;
pub mod field;
pub mod transcript;
