//! GPT-2 weights from safetensors files.
//!
//! Weights are kept as the bit patterns of 32-bit floating-point numbers.

pub mod archive;
pub mod error;
pub mod listing;
pub mod weights;
