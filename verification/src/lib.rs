//! Verified planning for GPU training kernels.

pub mod arith;
pub mod bf16;
pub mod flash;
pub mod float_order;
pub mod gemm;
pub mod launch;
pub mod profile;
pub mod tally;
