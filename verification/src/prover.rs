pub mod gkr;
pub mod linear_gkr;
pub mod proof_buffer;
pub mod sumcheck;
pub mod sumcheck_helper;
