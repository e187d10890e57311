//! Unique-inverse decomposition of a sequence.
//!
//! A sequence is split into the distinct values it holds, in the order in
//! which each value first appears, and one index per input position that says
//! where in those distinct values the element at that position is found.

pub mod laws;
pub mod model;
pub mod transform;

pub use transform::{unique_inverse, UniqueInverse};
