//! Calls from device code to the host.
//!
//! Device code fills a packet, puts it on the ready list and rings the doorbell; the
//! host answers in the same packet. A packet's payload is 64 bytes, eight slots of
//! eight bytes each.
pub mod batch;
pub mod buffer;
pub mod files;
pub mod listener;
pub mod protocol;
pub mod queue;
pub mod requests;
pub mod stdin;
