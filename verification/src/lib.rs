//! An engine for proving and verifying the evaluation of a layered
//! arithmetic circuit over a finite field: a layered sumcheck reduces the
//! claim on the output to one evaluation claim on the input, which a
//! polynomial commitment scheme discharges; a hash transcript makes the
//! protocol non-interactive.
pub mod circuit;
pub mod config;
pub mod field;
pub mod hash;
pub mod mul_group;
pub mod poly;
pub mod poly_commit;
pub mod prover;
pub mod transcript;
pub mod verify;

pub use circuit::{Circuit, CircuitLayer, Gate, GateAdd, GateConst, GateMul};
pub use config::{Config, FiatShamirHashType, FieldType, PolynomialCommitmentType};
pub use field::bn254::Fr;
pub use field::m31::{mod_reduce_i32, M31};
pub use field::m31_ext::M31Ext3;
pub use field::msn61_ext::Msn61;
pub use field::{Field, FieldArith, FieldSerde, TwoAdicField};
pub use hash::merkle_tree;
pub use mul_group::Radix2Group;
pub use poly::MultiLinearPoly;
pub use poly_commit::raw::as_bytes_vec;
pub use poly_commit::{deepfold, raw, shuffle};
pub use poly_commit::{CommitmentSerde, PolyCommitProver, PolyCommitVerifier};
pub use prover::gkr::gkr_prove;
pub use prover::linear_gkr::{grind, Prover};
pub use prover::proof_buffer::Proof;
pub use prover::sumcheck::{merge_multilinear_evals, sumcheck_prove_gkr_layer};
pub use prover::sumcheck_helper::{eq_evals_at_primitive, GkrScratchpad, SumcheckGkrHelper};
pub use transcript::Transcript;
pub use verify::{gkr_verify, Verifier};
