//! What is expected of the programs and kernels, and whether it came.

pub mod compare;
pub mod matrices;
pub mod messages;
pub mod words;
