//! Integer tensor arithmetic and the arithmetic behind circuit constraints
//! for zero-knowledge inference.

pub mod tensor;
pub mod circuit;
