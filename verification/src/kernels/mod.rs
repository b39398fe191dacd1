//! Compute kernels, thread by thread or block by block.
//!
//! A kernel whose threads do not meet is written for one thread; one whose threads
//! exchange values through shared memory or shuffles is written for one block, and
//! each phase between two barriers runs over all threads of the block.
pub mod attention;
pub mod basic;
pub mod elementwise;
pub mod gemm;
pub mod matrices;
pub mod online;
pub mod product;
pub mod reduce;
