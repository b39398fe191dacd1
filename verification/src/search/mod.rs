//! Vector similarity search that a warp runs on its own.
pub mod files;
pub mod pipeline;
pub mod topk;
