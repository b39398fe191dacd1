//! What the computations of this crate are for, stated as relations between inputs and
//! results.

pub mod activation;
pub mod attention;
pub mod generation;
pub mod hostcalls;
pub mod matrices;
pub mod normalization;
pub mod plan;
pub mod search;
pub mod softmax;
pub mod sums;
pub mod text;
pub mod transformer;
pub mod weights;
