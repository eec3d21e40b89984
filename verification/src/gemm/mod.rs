//! Matrix products: launches, operand layouts and the harnesses around them.

pub mod cublaslt;
pub mod fp32;
pub mod host;
pub mod mcast_probe;
pub mod model_shapes;
pub mod narrow;
pub mod periodic;
pub mod residency;
pub mod stagger;
pub mod toolkit;
pub mod transpose_probe;
