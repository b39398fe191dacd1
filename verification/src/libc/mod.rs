//! C library functions for device threads.
//!
//! Device memory is a flat byte array and a pointer is an address into it, with
//! address zero as the null pointer. No function here leaves the device.
pub mod errno;
pub mod memory;
pub mod string;
pub mod types;
