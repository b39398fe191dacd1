//! Threads that allocate at the same time.

use vstd::prelude::*;

use crate::bytes::{patched, word_bytes, write_word};
use crate::libc::errno::ThreadPos;
use crate::libc::memory::{claim_fits, malloc, malloc_result, Device};

verus! {

/// The bytes that each thread asks for.
pub const BLOCK_BYTES: usize = 64;

/// A thread allocates a block, leaves its address for the host, and writes its own number
/// into the block.
pub fn test_multithread_malloc(dev: &mut Device, at: &ThreadPos, tid: u32, output: &mut Vec<u64>)
    requires
        old(dev).wf(),
        at.wf(),
        claim_fits(old(dev).current, 16, BLOCK_BYTES),
        tid < old(output)@.len(),
    ensures
        final(dev).wf(),
        final(dev).end == old(dev).end,
        ({
            let (ptr, current, errno) = malloc_result(*old(dev), *at, BLOCK_BYTES);
            &&& final(output)@ == old(output)@.update(tid as int, ptr as u64)
            &&& final(dev).current == current
            &&& final(dev).errno@ == errno
            &&& final(dev).mem@ == if ptr == 0 {
                old(dev).mem@
            } else {
                patched(old(dev).mem@, ptr as int, word_bytes(tid))
            }
        }),
{
    let ptr: usize = malloc(dev, at, BLOCK_BYTES);
    output.set(tid as usize, ptr as u64);
    if ptr != 0 {
        write_word(&mut dev.mem, ptr, tid);
    }
}

} // verus!
