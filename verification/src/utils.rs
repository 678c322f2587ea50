//! Shared helpers: exact integer statistics and verified string building.

pub mod maths;
pub mod string;
