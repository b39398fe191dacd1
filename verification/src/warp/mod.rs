//! Tasks that the 32 lanes of a warp run in step.

pub mod lanes;
pub mod poll;
pub mod print;
pub mod tasks;
