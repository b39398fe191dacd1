//! Byte operations and allocation in device memory.
//!
//! The heap hands out addresses in increasing order and never takes one back:
//! the whole heap is reclaimed at once when a kernel ends. Threads that allocate
//! at the same time each claim a region by one compare-and-swap of the heap's
//! pointer, so [`reserve`] computes a claim from a pointer that was read, and the
//! claim stands only if the pointer has not moved since.

use vstd::prelude::*;

use crate::libc::errno::{set_errno, Errno, ThreadPos, EINVAL, ENOMEM};
use crate::libc::types::{c_int, size_t, MALLOC_ALIGN};

verus! {

/// `n` bytes at `at` lie in memory.
pub open spec fn in_memory(mem: Seq<u8>, at: usize, n: usize) -> bool {
    at + n <= mem.len()
}

/// Memory after the bytes at `dest` were replaced by `bytes`.
pub open spec fn overwritten(mem: Seq<u8>, dest: usize, bytes: Seq<u8>) -> Seq<u8> {
    Seq::new(
        mem.len(),
        |i: int|
            if dest <= i < dest + bytes.len() {
                bytes[i - dest]
            } else {
                mem[i]
            },
    )
}

/// The `n` bytes at `at`.
pub open spec fn bytes_at(mem: Seq<u8>, at: usize, n: usize) -> Seq<u8> {
    mem.subrange(at as int, at + n)
}

/// Memory after `n` bytes were copied one by one from `src` to `dest`, the first one first.
/// Where the copy runs into bytes that it has written itself, it repeats them.
pub open spec fn copied_forward(mem: Seq<u8>, dest: usize, src: usize, n: usize) -> Seq<u8> {
    Seq::new(
        mem.len(),
        |k: int|
            if dest <= k < dest + n {
                if src < dest {
                    mem[src + (k - dest) % (dest - src)]
                } else {
                    mem[src + (k - dest)]
                }
            } else {
                mem[k]
            },
    )
}

/// Copies `n` bytes from `src` to `dest`, the first one first. If the two do not overlap,
/// the bytes at `dest` are those of `src`.
pub fn memcpy(mem: &mut Vec<u8>, dest: size_t, src: size_t, n: size_t) -> (r: size_t)
    requires
        in_memory(old(mem)@, dest, n),
        in_memory(old(mem)@, src, n),
    ensures
        r == dest,
        final(mem)@ == copied_forward(old(mem)@, dest, src, n),
        dest + n <= src || src + n <= dest ==> final(mem)@ == overwritten(
            old(mem)@,
            dest,
            bytes_at(old(mem)@, src, n),
        ),
{
    let ghost before = mem@;
    let size: usize = mem.len();
    let mut i: usize = 0;
    while i < n
        invariant
            size == before.len(),
            in_memory(before, dest, n),
            in_memory(before, src, n),
            i <= n,
            mem@ == copied_forward(before, dest, src, i),
        decreases n - i,
    {
        proof {
            if src < dest {
                lemma_repeats(i as int, dest - src);
            }
        }
        let b: u8 = mem[src + i];
        mem.set(dest + i, b);
        i += 1;
        assert(mem@ =~= copied_forward(before, dest, src, i));
    }
    proof {
        if src + n <= dest {
            assert forall|k: int| dest <= k < dest + n implies #[trigger] mem@[k]
                == before[src + (k - dest)] by {
                lemma_repeats(k - dest, dest - src);
            }
        }
        if dest + n <= src || src + n <= dest {
            assert(mem@ =~= overwritten(before, dest, bytes_at(before, src, n)));
        }
    }
    dest
}

/// A byte one period on is the same byte.
proof fn lemma_repeats(i: int, period: int)
    requires
        0 <= i,
        0 < period,
    ensures
        0 <= i % period < period,
        i % period <= i,
        i < period ==> i % period == i,
        i >= period ==> (i - period) % period == i % period,
{
    vstd::arithmetic::div_mod::lemma_mod_bound(i, period);
    vstd::arithmetic::div_mod::lemma_mod_decreases(i as nat, period as nat);
    if i < period {
        vstd::arithmetic::div_mod::lemma_small_mod(i as nat, period as nat);
    } else {
        vstd::arithmetic::div_mod::lemma_mod_sub_multiples_vanish(i, period);
        assert((-period + i) == i - period);
    }
}

/// Fills `n` bytes at `s` with the low byte of `c`.
pub fn memset(mem: &mut Vec<u8>, s: size_t, c: c_int, n: size_t) -> (r: size_t)
    requires
        in_memory(old(mem)@, s, n),
    ensures
        r == s,
        final(mem)@ == overwritten(old(mem)@, s, Seq::new(n as nat, |i: int| c as u8)),
{
    let ghost before = mem@;
    let size: usize = mem.len();
    let byte: u8 = c as u8;
    let mut i: usize = 0;
    while i < n
        invariant
            size == before.len(),
            in_memory(before, s, n),
            i <= n,
            byte == c as u8,
            mem@ == overwritten(before, s, Seq::new(i as nat, |j: int| c as u8)),
        decreases n - i,
    {
        mem.set(s + i, byte);
        i += 1;
    }
    s
}

/// The difference of the first two bytes that differ, or zero.
pub open spec fn block_difference(a: Seq<u8>, b: Seq<u8>) -> int
    decreases a.len(),
{
    if a.len() == 0 || b.len() == 0 {
        0
    } else if a[0] != b[0] {
        a[0] - b[0]
    } else {
        block_difference(a.skip(1), b.skip(1))
    }
}

/// Compares `n` bytes at `s1` and `s2`: zero if they are equal, otherwise the
/// difference of the first bytes that differ.
pub fn memcmp(mem: &Vec<u8>, s1: size_t, s2: size_t, n: size_t) -> (r: c_int)
    requires
        in_memory(mem@, s1, n),
        in_memory(mem@, s2, n),
    ensures
        r == block_difference(bytes_at(mem@, s1, n), bytes_at(mem@, s2, n)),
        r == 0 <==> bytes_at(mem@, s1, n) == bytes_at(mem@, s2, n),
{
    compare_blocks(mem, s1, s2, n)
}

fn compare_blocks(mem: &Vec<u8>, s1: size_t, s2: size_t, n: size_t) -> (r: c_int)
    requires
        in_memory(mem@, s1, n),
        in_memory(mem@, s2, n),
    ensures
        r == block_difference(bytes_at(mem@, s1, n), bytes_at(mem@, s2, n)),
        r == 0 <==> bytes_at(mem@, s1, n) == bytes_at(mem@, s2, n),
{
    let ghost a = bytes_at(mem@, s1, n);
    let ghost b = bytes_at(mem@, s2, n);
    let size: usize = mem.len();
    assert(a.skip(0) =~= a && b.skip(0) =~= b);
    let mut i: usize = 0;
    while i < n
        invariant
            size == mem@.len(),
            in_memory(mem@, s1, n),
            in_memory(mem@, s2, n),
            a == bytes_at(mem@, s1, n),
            b == bytes_at(mem@, s2, n),
            i <= n,
            forall|k: int| 0 <= k < i ==> a[k] == b[k],
            block_difference(a, b) == block_difference(a.skip(i as int), b.skip(i as int)),
        decreases n - i,
    {
        let c1: u8 = mem[s1 + i];
        let c2: u8 = mem[s2 + i];
        assert(a[i as int] == c1 && b[i as int] == c2);
        if c1 != c2 {
            return c1 as c_int - c2 as c_int;
        }
        assert(a.skip(i as int).skip(1) =~= a.skip(i + 1));
        assert(b.skip(i as int).skip(1) =~= b.skip(i + 1));
        i += 1;
    }
    assert(a =~= b);
    0
}

/// Copies `n` bytes from `src` to `dest`, which may overlap.
pub fn memmove(mem: &mut Vec<u8>, dest: size_t, src: size_t, n: size_t) -> (r: size_t)
    requires
        in_memory(old(mem)@, dest, n),
        in_memory(old(mem)@, src, n),
    ensures
        r == dest,
        final(mem)@ == overwritten(old(mem)@, dest, bytes_at(old(mem)@, src, n)),
{
    let ghost before = mem@;
    let size: usize = mem.len();
    if dest < src {
        let mut i: usize = 0;
        while i < n
            invariant
                size == before.len(),
                in_memory(before, dest, n),
                in_memory(before, src, n),
                dest < src,
                i <= n,
                mem@ == overwritten(before, dest, bytes_at(before, src, i)),
            decreases n - i,
        {
            let b: u8 = mem[src + i];
            mem.set(dest + i, b);
            i += 1;
        }
    } else if dest > src {
        let mut i: usize = n;
        while i > 0
            invariant
                size == before.len(),
                in_memory(before, dest, n),
                in_memory(before, src, n),
                dest > src,
                i <= n,
                mem@.len() == before.len(),
                forall|k: int|
                    0 <= k < before.len() ==> mem@[k] == (if dest + i <= k < dest + n {
                        before[k - dest + src]
                    } else {
                        before[k]
                    }),
            decreases i,
        {
            i -= 1;
            let b: u8 = mem[src + i];
            mem.set(dest + i, b);
        }
    }
    dest
}

/// A power of two.
pub open spec fn is_power_of_two(a: nat) -> bool
    decreases a,
{
    if a <= 1 {
        a == 1
    } else {
        a % 2 == 0 && is_power_of_two(a / 2)
    }
}

/// The least multiple of `align` that is not below `x`.
pub open spec fn align_up(x: int, align: int) -> int {
    (x + align - 1) - (x + align - 1) % align
}

/// `size` bytes at `x`, aligned up, end at an address.
pub open spec fn claim_fits(x: usize, align: usize, size: usize) -> bool {
    &&& x + align - 1 <= usize::MAX
    &&& align_up(x as int, align as int) + size <= usize::MAX
}

/// The claim of `size` bytes on a heap whose pointer was read as `current`: the
/// address of the block and the pointer to install, or `None` if the block would
/// end beyond the heap.
pub open spec fn claim(current: usize, end: usize, align: usize, size: usize) -> Option<
    (usize, usize),
> {
    let at = align_up(current as int, align as int);
    if at + size > end {
        None
    } else {
        Some((at as usize, (at + size) as usize))
    }
}

/// Computes a thread's claim on the heap.
pub fn reserve(current: usize, end: usize, align: usize, size: usize) -> (r: Option<(usize, usize)>)
    requires
        is_power_of_two(align as nat),
        claim_fits(current, align, size),
    ensures
        r == claim(current, end, align, size),
{
    proof {
        lemma_mask(((current + align) - 1) as usize, align);
    }
    let aligned: usize = (current + (align - 1)) & !(align - 1);
    let new_current: usize = aligned + size;
    if new_current > end {
        None
    } else {
        Some((aligned, new_current))
    }
}

/// Device memory with its heap and the error numbers of a block.
pub struct Device {
    pub mem: Vec<u8>,
    /// The first address that the heap has not handed out.
    pub current: usize,
    /// The end of the heap.
    pub end: usize,
    pub errno: Errno,
}

impl Device {
    /// The heap lies in memory and does not start at the null address.
    pub open spec fn wf(&self) -> bool {
        &&& self.errno.wf()
        &&& self.current <= self.end <= self.mem@.len()
        &&& self.end > 0 ==> self.current > 0
    }

    /// Memory without a heap.
    pub fn new(mem: Vec<u8>) -> (d: Device)
        ensures
            d.wf(),
            d.mem@ == mem@,
            d.current == 0,
            d.end == 0,
            forall|i: int| 0 <= i < d.errno@.len() ==> d.errno@[i] == 0,
    {
        Device { mem, current: 0, end: 0, errno: Errno::new() }
    }
}

/// Makes `heap_size` bytes at `heap_start` the heap.
pub fn gpu_heap_init(dev: &mut Device, heap_start: usize, heap_size: usize)
    requires
        old(dev).wf(),
        heap_start > 0,
        in_memory(old(dev).mem@, heap_start, heap_size),
    ensures
        final(dev).wf(),
        final(dev).current == heap_start,
        final(dev).end == heap_start + heap_size,
        final(dev).mem@ == old(dev).mem@,
        final(dev).errno@ == old(dev).errno@,
{
    let _size: usize = dev.mem.len();
    dev.end = heap_start + heap_size;
    dev.current = heap_start;
}

/// What an allocation of `size` bytes does: the block's address (null if it is
/// empty or does not fit), the heap pointer, and the error numbers.
pub open spec fn malloc_result(dev: Device, at: ThreadPos, size: usize) -> (usize, usize, Seq<
    c_int,
>) {
    if size == 0 {
        (0, dev.current, dev.errno@)
    } else {
        match claim(dev.current, dev.end, MALLOC_ALIGN, size) {
            None => (0, dev.current, dev.errno@.update(at.slot(), ENOMEM)),
            Some((block, next)) => (block, next, dev.errno@),
        }
    }
}

/// Allocates `size` bytes. An empty block is null, and so is one that does not
/// fit, which also sets `ENOMEM`.
pub fn malloc(dev: &mut Device, at: &ThreadPos, size: size_t) -> (ptr: size_t)
    requires
        old(dev).wf(),
        at.wf(),
        size > 0 ==> claim_fits(old(dev).current, MALLOC_ALIGN, size),
    ensures
        final(dev).wf(),
        (ptr, final(dev).current, final(dev).errno@) == malloc_result(*old(dev), *at, size),
        final(dev).end == old(dev).end,
        final(dev).mem@ == old(dev).mem@,
{
    if size == 0 {
        return 0;
    }
    proof {
        lemma_sixteen();
    }
    match reserve(dev.current, dev.end, MALLOC_ALIGN, size) {
        None => {
            set_errno(&mut dev.errno, at, ENOMEM);
            0
        },
        Some((aligned, new_current)) => {
            proof {
                lemma_align_up(dev.current as int, MALLOC_ALIGN as int);
            }
            dev.current = new_current;
            aligned
        },
    }
}

/// Allocates `nmemb` elements of `size` bytes, filled with zeros. An element count
/// whose size cannot be expressed sets `ENOMEM`.
pub fn calloc(dev: &mut Device, at: &ThreadPos, nmemb: size_t, size: size_t) -> (ptr: size_t)
    requires
        old(dev).wf(),
        at.wf(),
        0 < nmemb * size <= usize::MAX ==> claim_fits(
            old(dev).current,
            MALLOC_ALIGN,
            (nmemb * size) as usize,
        ),
    ensures
        final(dev).wf(),
        final(dev).end == old(dev).end,
        nmemb * size > usize::MAX ==> {
            &&& ptr == 0
            &&& final(dev).current == old(dev).current
            &&& final(dev).mem@ == old(dev).mem@
            &&& final(dev).errno@ == old(dev).errno@.update(at.slot(), ENOMEM)
        },
        nmemb * size <= usize::MAX ==> {
            &&& (ptr, final(dev).current, final(dev).errno@) == malloc_result(
                *old(dev),
                *at,
                (nmemb * size) as usize,
            )
            &&& final(dev).mem@ == if ptr == 0 {
                old(dev).mem@
            } else {
                overwritten(
                    old(dev).mem@,
                    ptr,
                    Seq::new((nmemb * size) as nat, |i: int| 0u8),
                )
            }
        },
{
    proof {
        assert(nmemb * size >= 0) by (nonlinear_arith);
    }
    match nmemb.checked_mul(size) {
        None => {
            set_errno(&mut dev.errno, at, ENOMEM);
            0
        },
        Some(total) => {
            if total == 0 {
                return 0;
            }
            let ptr: size_t = malloc(dev, at, total);
            if ptr != 0 {
                memset(&mut dev.mem, ptr, 0, total);
                assert(0i32 as u8 == 0u8) by (bit_vector);
                assert(dev.mem@ =~= overwritten(
                    old(dev).mem@,
                    ptr,
                    Seq::new((nmemb * size) as nat, |i: int| 0u8),
                ));
            }
            ptr
        },
    }
}

/// Returns a block to the heap. The heap reclaims nothing before the kernel ends.
pub fn free(dev: &mut Device, _ptr: size_t)
    ensures
        *final(dev) == *old(dev),
{
}

/// Moves a block to a new one of `new_size` bytes. Null is an empty block, and a
/// size of zero gives null. The first `new_size` bytes at `ptr` are copied, the first one
/// first, whatever the size of the old block was: those that the heap had handed out before
/// are kept, and so are all bytes in front of the new block.
pub fn realloc(dev: &mut Device, at: &ThreadPos, ptr: size_t, new_size: size_t) -> (r: size_t)
    requires
        old(dev).wf(),
        at.wf(),
        new_size > 0 ==> claim_fits(old(dev).current, MALLOC_ALIGN, new_size),
        ptr != 0 ==> in_memory(old(dev).mem@, ptr, new_size),
    ensures
        final(dev).wf(),
        final(dev).end == old(dev).end,
        (r, final(dev).current, final(dev).errno@) == malloc_result(*old(dev), *at, new_size),
        final(dev).mem@ == if r == 0 || ptr == 0 {
            old(dev).mem@
        } else {
            copied_forward(old(dev).mem@, r, ptr, new_size)
        },
        r != 0 ==> r >= old(dev).current,
        r != 0 ==> final(dev).mem@.take(r as int) == old(dev).mem@.take(r as int),
        r != 0 && ptr != 0 ==> forall|i: int|
            0 <= i < new_size && ptr + i < old(dev).current ==> #[trigger] final(dev).mem@[r + i]
                == old(dev).mem@[ptr + i],
{
    if ptr == 0 {
        proof {
            lemma_align_up(old(dev).current as int, MALLOC_ALIGN as int);
        }
        return malloc(dev, at, new_size);
    }
    if new_size == 0 {
        free(dev, ptr);
        return 0;
    }
    let new_ptr: size_t = malloc(dev, at, new_size);
    if new_ptr == 0 {
        return 0;
    }
    proof {
        lemma_align_up(old(dev).current as int, MALLOC_ALIGN as int);
    }
    memcpy(&mut dev.mem, new_ptr, ptr, new_size);
    proof {
        assert forall|i: int| 0 <= i < new_size && ptr + i < old(dev).current implies #[trigger]
            dev.mem@[new_ptr + i] == old(dev).mem@[ptr + i] by {
            if ptr < new_ptr {
                lemma_repeats(i, new_ptr - ptr);
            }
        }
        assert(dev.mem@.take(new_ptr as int) =~= old(dev).mem@.take(new_ptr as int));
    }
    new_ptr
}

/// An alignment that can be asked for: a power of two that is a multiple of the
/// size of a pointer.
pub open spec fn valid_alignment(align: usize) -> bool {
    is_power_of_two(align as nat) && align % 8 == 0
}

/// Allocates `size` bytes at a multiple of `align` and stores the address in
/// `memptr`. The result is zero, `EINVAL` for an alignment that cannot be asked
/// for, or `ENOMEM`; on an error `memptr` stays as it is.
pub fn posix_memalign(dev: &mut Device, memptr: &mut size_t, align: size_t, size: size_t) -> (r:
    c_int)
    requires
        old(dev).wf(),
        size > 0 && valid_alignment(align) ==> claim_fits(old(dev).current, align, size),
    ensures
        final(dev).wf(),
        final(dev).end == old(dev).end,
        final(dev).mem@ == old(dev).mem@,
        final(dev).errno@ == old(dev).errno@,
        ({
            let out = (r, *final(memptr), final(dev).current);
            if size == 0 {
                out == (0i32, 0usize, old(dev).current)
            } else if !valid_alignment(align) {
                out == (EINVAL, *old(memptr), old(dev).current)
            } else {
                match claim(old(dev).current, old(dev).end, align, size) {
                    None => out == (ENOMEM, *old(memptr), old(dev).current),
                    Some((block, next)) => out == (0i32, block, next),
                }
            }
        }),
{
    if size == 0 {
        *memptr = 0;
        return 0;
    }
    proof {
        if align > 0 {
            lemma_power_of_two_bits(align);
        }
    }
    if align == 0 || (align & (align - 1)) != 0 || align % 8 != 0 {
        return EINVAL;
    }
    match reserve(dev.current, dev.end, align, size) {
        None => ENOMEM,
        Some((aligned, new_current)) => {
            proof {
                lemma_align_up(dev.current as int, align as int);
            }
            dev.current = new_current;
            *memptr = aligned;
            0
        },
    }
}

/// A claim that succeeds is aligned, starts at or after the heap pointer, ends at
/// the new heap pointer, and lies within the heap.
pub proof fn claim_is_aligned_and_inside(current: usize, end: usize, align: usize, size: usize)
    requires
        is_power_of_two(align as nat),
        claim_fits(current, align, size),
    ensures
        match claim(current, end, align, size) {
            None => current + size + align - 1 > end,
            Some((block, next)) => {
                &&& block % align == 0
                &&& current <= block < current + align
                &&& next == block + size
                &&& next <= end
            },
        },
{
    lemma_align_up(current as int, align as int);
}

/// The heap pointer after a series of successful claims, each an alignment and a
/// size, in the order in which their swaps took effect.
pub open spec fn heap_after(start: int, claims: Seq<(int, int)>) -> int
    decreases claims.len(),
{
    if claims.len() == 0 {
        start
    } else {
        align_up(heap_after(start, claims.drop_last()), claims.last().0) + claims.last().1
    }
}

/// The block of the `i`-th claim of a series.
pub open spec fn block_of(start: int, claims: Seq<(int, int)>, i: int) -> int {
    align_up(heap_after(start, claims.take(i)), claims[i].0)
}

/// Whatever order the threads' claims take effect in, no two blocks overlap.
pub proof fn blocks_never_overlap(start: int, claims: Seq<(int, int)>, i: int, j: int)
    requires
        0 <= i < j < claims.len(),
        forall|k: int|
            0 <= k < claims.len() ==> (#[trigger] claims[k]).0 > 0 && claims[k].1 >= 0,
    ensures
        block_of(start, claims, i) + claims[i].1 <= block_of(start, claims, j),
{
    lemma_heap_grows(start, claims, i, j);
    lemma_align_up(heap_after(start, claims.take(j)), claims[j].0);
}

proof fn lemma_heap_grows(start: int, claims: Seq<(int, int)>, i: int, j: int)
    requires
        0 <= i < j <= claims.len(),
        forall|k: int|
            0 <= k < claims.len() ==> (#[trigger] claims[k]).0 > 0 && claims[k].1 >= 0,
    ensures
        block_of(start, claims, i) + claims[i].1 <= heap_after(start, claims.take(j)),
    decreases j - i,
{
    assert(claims.take(j).drop_last() =~= claims.take(j - 1));
    assert(claims.take(j).last() == claims[j - 1]);
    if i < j - 1 {
        lemma_heap_grows(start, claims, i, j - 1);
        lemma_align_up(heap_after(start, claims.take(j - 1)), claims[j - 1].0);
    }
}

/// A block of a valid allocation does not start at null, so a null result always
/// means that nothing was allocated.
pub proof fn null_means_nothing_allocated(dev: Device, at: ThreadPos, size: usize)
    requires
        dev.wf(),
        size > 0,
        claim_fits(dev.current, MALLOC_ALIGN, size),
    ensures
        malloc_result(dev, at, size).0 == 0 <==> claim(dev.current, dev.end, MALLOC_ALIGN, size)
            is None,
{
    lemma_align_up(dev.current as int, MALLOC_ALIGN as int);
}

/// Moving bytes and comparing them: after a copy the two blocks are equal, unless
/// the copy overwrote part of its source.
pub proof fn copied_blocks_are_equal(mem: Seq<u8>, dest: usize, src: usize, n: usize)
    requires
        in_memory(mem, dest, n),
        in_memory(mem, src, n),
        dest + n <= src || src + n <= dest,
    ensures
        ({
            let after = overwritten(mem, dest, bytes_at(mem, src, n));
            block_difference(bytes_at(after, dest, n), bytes_at(after, src, n)) == 0
        }),
{
    let after = overwritten(mem, dest, bytes_at(mem, src, n));
    assert(bytes_at(after, dest, n) =~= bytes_at(after, src, n));
    lemma_equal_blocks(bytes_at(after, dest, n));
}

/// Swapping the blocks changes the sign of the comparison.
pub proof fn block_comparison_is_antisymmetric(a: Seq<u8>, b: Seq<u8>)
    requires
        a.len() == b.len(),
    ensures
        block_difference(a, b) == -block_difference(b, a),
    decreases a.len(),
{
    if a.len() > 0 && a[0] == b[0] {
        block_comparison_is_antisymmetric(a.skip(1), b.skip(1));
    }
}

proof fn lemma_equal_blocks(a: Seq<u8>)
    ensures
        block_difference(a, a) == 0,
    decreases a.len(),
{
    if a.len() > 0 {
        lemma_equal_blocks(a.skip(1));
    }
}

proof fn lemma_align_up(x: int, align: int)
    requires
        align > 0,
    ensures
        x <= align_up(x, align) < x + align,
        align_up(x, align) % align == 0,
{
    let y = x + align - 1;
    vstd::arithmetic::div_mod::lemma_fundamental_div_mod(y, align);
    assert(y - y % align == align * (y / align));
    vstd::arithmetic::div_mod::lemma_mod_multiples_basic(y / align, align);
    assert(align * (y / align) == (y / align) * align) by (nonlinear_arith);
}

proof fn lemma_sixteen()
    ensures
        is_power_of_two(MALLOC_ALIGN as nat),
{
    reveal_with_fuel(is_power_of_two, 6);
}

/// Clearing the bits below a power of two rounds down to a multiple of it.
proof fn lemma_mask(x: usize, a: usize)
    requires
        is_power_of_two(a as nat),
    ensures
        a > 0,
        x & !((a - 1) as usize) == x - x % a,
    decreases a,
{
    let m = (a - 1) as usize;
    if a == 1 {
        assert(x & !m == x) by (bit_vector)
            requires
                m == 0,
        ;
    } else {
        let h = (a / 2) as usize;
        let hm = (h - 1) as usize;
        let y = (x / 2) as usize;
        lemma_mask(y, h);
        assert(x & !m == 2 * (y & !hm)) by (bit_vector)
            requires
                m == 2 * hm + 1,
                y == x / 2,
        ;
        assert(x % a == 2 * (y % h) + x % 2) by {
            vstd::arithmetic::div_mod::lemma_mod_breakdown(x as int, 2, h as int);
        }
    }
}

/// A number has no bit in common with the number below it exactly if it is a power
/// of two.
proof fn lemma_power_of_two_bits(a: usize)
    requires
        a > 0,
    ensures
        is_power_of_two(a as nat) <==> a & ((a - 1) as usize) == 0,
    decreases a,
{
    let m = (a - 1) as usize;
    if a == 1 {
        assert(a & m == 0) by (bit_vector)
            requires
                m == 0,
        ;
    } else if a % 2 == 1 {
        assert(a & m == m) by (bit_vector)
            requires
                a == m + 1,
                a % 2 == 1,
        ;
    } else {
        let h = (a / 2) as usize;
        let hm = (h - 1) as usize;
        lemma_power_of_two_bits(h);
        assert(a & m == 2 * (h & hm)) by (bit_vector)
            requires
                a == 2 * h,
                m == 2 * hm + 1,
        ;
    }
}

} // verus!
