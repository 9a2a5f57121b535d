//! The arithmetic behind circuit constraints and the tensors that carry witnesses.

pub mod lookup;
pub mod range;
pub mod utils;
