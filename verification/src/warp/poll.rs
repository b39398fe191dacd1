//! How a warp's task is driven.
//!
//! A task is polled until it is ready. In a submitting state a poll hands one
//! packet to the host, if one is free; in a waiting state it looks whether the host
//! has answered. Lane 0 decides and the others follow, so the lanes never part.

use vstd::prelude::*;

verus! {

/// What a poll comes to.
#[derive(Clone, Copy, Debug, PartialEq, Eq, Structural)]
pub enum WarpPoll {
    Pending,
    Ready(bool),
}

/// What became of the packet that a poll dealt with.
#[derive(Clone, Copy, Debug, PartialEq, Eq, Structural)]
pub enum Outcome {
    /// No packet was free, or the host has not answered.
    Stalled,
    /// The packet went to the host.
    Submitted,
    /// The host answered with this value.
    Replied(u64),
}

/// How a file is opened.
#[derive(Clone, Copy, Debug, PartialEq, Eq, Structural)]
pub enum OpenMode {
    Read,
    WriteCreate,
    Append,
}

/// The word that a kernel leaves for the host: lane 0 writes 1 if its task ended well, and 0
/// if it did not; the other lanes write nothing.
pub open spec fn left_word(ok: bool, lane: u32, before: u32) -> u32 {
    if lane != 0 {
        before
    } else if ok {
        1
    } else {
        0
    }
}

/// Leaves a word for the host.
pub(crate) fn leave_word(ok: bool, lane: u32, word: &mut u32)
    ensures
        *final(word) == left_word(ok, lane, *old(word)),
{
    if lane == 0 {
        *word = if ok {
            1
        } else {
            0
        };
    }
}

} // verus!
