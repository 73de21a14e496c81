//! Splits a string into alternating runs of whitespace and non-whitespace,
//! keeping every character, so that the runs concatenate back to the input.
pub mod segmentation;
pub mod split;
pub mod whitespace;

pub use split::{SplitPreserveWS, Token};
