//! Programs that run on the device and call the host.
//!
//! A program's calls are carried out elsewhere: here stands what a program asks for, and
//! what it makes of the answers.

pub mod bench;
pub mod commands;
pub mod files;
pub mod heap;
pub mod messages;
pub mod roots;
pub mod stdlib;
pub mod tracing;
