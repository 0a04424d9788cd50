//! IEEE-754 binary32 numbers as bit patterns, with correctly rounded arithmetic.

pub mod arith;
pub mod exact;
pub mod laws;
pub mod number;
pub mod root;
pub mod rounding;
pub mod signs;

pub use number::Single;
