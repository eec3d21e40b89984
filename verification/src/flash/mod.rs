//! Causal attention: what each kernel's work items, tiles and launches are.

pub mod checks;
pub mod host;
pub mod probe;
pub mod rows;
pub mod schedule;
pub mod staging;
pub mod stream;
pub mod tiled;
