//! One error number for each thread of a block.
//!
//! Threads are numbered within their block, and each of the first
//! [`MAX_GPU_THREADS`] has a slot of its own. The threads of a larger block that
//! lie beyond that share slot 0.

use vstd::prelude::*;

use crate::libc::types::c_int;

verus! {

pub const EPERM: c_int = 1;

pub const ENOENT: c_int = 2;

pub const ESRCH: c_int = 3;

pub const EINTR: c_int = 4;

pub const EIO: c_int = 5;

pub const ENXIO: c_int = 6;

pub const EBADF: c_int = 9;

pub const ENOMEM: c_int = 12;

pub const EACCES: c_int = 13;

pub const EFAULT: c_int = 14;

pub const EEXIST: c_int = 17;

pub const EINVAL: c_int = 22;

pub const ENOSYS: c_int = 38;

pub const ENOTSUP: c_int = 95;

/// How many threads of a block have an error number of their own.
pub const MAX_GPU_THREADS: usize = 1024;

/// A thread's place in its block, as the hardware registers give it.
#[derive(Clone, Copy, Debug, PartialEq, Eq, Structural)]
pub struct ThreadPos {
    pub tid_x: u32,
    pub tid_y: u32,
    pub tid_z: u32,
    pub ntid_x: u32,
    pub ntid_y: u32,
}

impl ThreadPos {
    /// The thread's number within its block, counted along x, then y, then z.
    pub open spec fn flat(self) -> int {
        self.tid_x + self.tid_y * self.ntid_x + self.tid_z * self.ntid_x * self.ntid_y
    }

    /// The block has rows, and its threads can be numbered in 32 bits.
    pub open spec fn wf(self) -> bool {
        self.ntid_y >= 1 && self.flat() <= u32::MAX
    }

    /// The slot that holds the thread's error number.
    pub open spec fn slot(self) -> int {
        if self.flat() < MAX_GPU_THREADS {
            self.flat()
        } else {
            0
        }
    }
}

/// The number of a thread within its block.
pub fn thread_id_in_block(at: &ThreadPos) -> (id: u32)
    requires
        at.wf(),
    ensures
        id == at.flat(),
{
    proof {
        let (y, z, nx, ny) = (
            at.tid_y as int,
            at.tid_z as int,
            at.ntid_x as int,
            at.ntid_y as int,
        );
        assert(0 <= y * nx && 0 <= z * nx && z * nx <= z * nx * ny) by (nonlinear_arith)
            requires
                0 <= y,
                0 <= z,
                0 <= nx,
                1 <= ny,
        ;
    }
    at.tid_x + at.tid_y * at.ntid_x + at.tid_z * at.ntid_x * at.ntid_y
}

/// The slot of the calling thread's error number.
pub fn errno_index(at: &ThreadPos) -> (slot: usize)
    requires
        at.wf(),
    ensures
        slot == at.slot(),
        slot < MAX_GPU_THREADS,
{
    let tid: usize = thread_id_in_block(at) as usize;
    if tid < MAX_GPU_THREADS {
        tid
    } else {
        0
    }
}

/// The error numbers of a block.
pub struct Errno {
    pub slots: Vec<c_int>,
}

impl View for Errno {
    type V = Seq<c_int>;

    open spec fn view(&self) -> Seq<c_int> {
        self.slots@
    }
}

impl Errno {
    /// There is a slot for every numbered thread.
    pub open spec fn wf(&self) -> bool {
        self@.len() == MAX_GPU_THREADS
    }

    /// All error numbers are zero at the start.
    pub fn new() -> (r: Errno)
        ensures
            r.wf(),
            forall|i: int| 0 <= i < MAX_GPU_THREADS ==> r@[i] == 0,
    {
        Errno { slots: vec![0;MAX_GPU_THREADS] }
    }
}

/// Where the calling thread's error number is kept.
pub fn __errno_location(at: &ThreadPos) -> (slot: usize)
    requires
        at.wf(),
    ensures
        slot == at.slot(),
        slot < MAX_GPU_THREADS,
{
    errno_index(at)
}

/// Sets the calling thread's error number.
pub fn set_errno(errno: &mut Errno, at: &ThreadPos, val: c_int)
    requires
        old(errno).wf(),
        at.wf(),
    ensures
        final(errno).wf(),
        final(errno)@ == old(errno)@.update(at.slot(), val),
{
    let idx: usize = errno_index(at);
    errno.slots[idx] = val;
}

/// The calling thread's error number.
pub fn get_errno(errno: &Errno, at: &ThreadPos) -> (val: c_int)
    requires
        errno.wf(),
        at.wf(),
    ensures
        val == errno@[at.slot()],
{
    let idx: usize = errno_index(at);
    errno.slots[idx]
}

/// A thread reads back the error number that it set, and no thread with another
/// slot sees a change.
pub proof fn errno_is_read_back(errno: Seq<c_int>, at: ThreadPos, other: ThreadPos, val: c_int)
    requires
        errno.len() == MAX_GPU_THREADS,
        at.wf(),
        other.wf(),
    ensures
        errno.update(at.slot(), val)[at.slot()] == val,
        other.slot() != at.slot() ==> errno.update(at.slot(), val)[other.slot()]
            == errno[other.slot()],
{
    lemma_slot_in_range(at);
    lemma_slot_in_range(other);
}

/// Two different threads of a block have different error numbers as long as both
/// have a slot of their own.
pub proof fn errno_slots_are_separate(a: ThreadPos, b: ThreadPos)
    requires
        a.wf(),
        b.wf(),
        a.flat() != b.flat(),
        a.flat() < MAX_GPU_THREADS,
        b.flat() < MAX_GPU_THREADS,
    ensures
        a.slot() != b.slot(),
{
}

/// The threads beyond the last slot all share slot 0.
pub proof fn errno_overflow_shares_slot_zero(a: ThreadPos)
    requires
        a.wf(),
        a.flat() >= MAX_GPU_THREADS,
    ensures
        a.slot() == 0,
{
}

/// Two threads of one block have the same number only if they are the same thread.
pub proof fn thread_numbers_are_distinct(a: ThreadPos, b: ThreadPos)
    requires
        a.ntid_x == b.ntid_x,
        a.ntid_y == b.ntid_y,
        a.tid_x < a.ntid_x,
        b.tid_x < b.ntid_x,
        a.tid_y < a.ntid_y,
        b.tid_y < b.ntid_y,
        a.flat() == b.flat(),
    ensures
        a == b,
{
    let nx = a.ntid_x as int;
    let ny = a.ntid_y as int;
    let (ax, ay, az) = (a.tid_x as int, a.tid_y as int, a.tid_z as int);
    let (bx, by, bz) = (b.tid_x as int, b.tid_y as int, b.tid_z as int);
    let ra = ay + az * ny;
    let rb = by + bz * ny;
    assert(az * nx * ny == nx * (az * ny) && bz * nx * ny == nx * (bz * ny) && ay * nx == nx * ay
        && by * nx == nx * by) by (nonlinear_arith);
    assert(nx * ra == nx * ay + nx * (az * ny)) by (nonlinear_arith)
        requires
            ra == ay + az * ny,
    ;
    assert(nx * rb == nx * by + nx * (bz * ny)) by (nonlinear_arith)
        requires
            rb == by + bz * ny,
    ;
    vstd::arithmetic::div_mod::lemma_fundamental_div_mod_converse(nx * ra + ax, nx, ra, ax);
    vstd::arithmetic::div_mod::lemma_fundamental_div_mod_converse(nx * rb + bx, nx, rb, bx);
    assert(ra == rb);
    assert(az * ny == ny * az && bz * ny == ny * bz) by (nonlinear_arith);
    vstd::arithmetic::div_mod::lemma_fundamental_div_mod_converse(ny * az + ay, ny, az, ay);
    vstd::arithmetic::div_mod::lemma_fundamental_div_mod_converse(ny * bz + by, ny, bz, by);
}

proof fn lemma_slot_in_range(at: ThreadPos)
    requires
        at.wf(),
    ensures
        0 <= at.slot() < MAX_GPU_THREADS,
{
    let (y, z, nx, ny) = (
        at.tid_y as int,
        at.tid_z as int,
        at.ntid_x as int,
        at.ntid_y as int,
    );
    assert(0 <= y * nx && 0 <= z * nx && 0 <= z * nx * ny) by (nonlinear_arith)
        requires
            0 <= y,
            0 <= z,
            0 <= nx,
            1 <= ny,
    ;
}

} // verus!
