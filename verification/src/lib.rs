//! Verified core of a GPU host runtime.
pub mod agreement;
pub mod bytes;
pub mod checks;
pub mod error;
pub mod exact;
pub mod half;
pub mod hostcall;
pub mod index;
pub mod inference;
pub mod kernels;
pub mod laws;
pub mod libc;
pub mod model;
pub mod programs;
pub mod reference;
pub mod scalar;
pub mod search;
pub mod stdio;
pub mod tensor;
pub mod text;
pub mod tokenizer;
pub mod warp;
