//! Inference on the device: what is launched, and what is made of the result.
pub mod execution;
pub mod generate;
pub mod launches;
pub mod plan;
pub mod prepare;
pub mod verdict;
