use gpu_host::libc::errno::{
    errno_index, get_errno, set_errno, thread_id_in_block, Errno, ThreadPos, EINVAL, ENOMEM,
};
use gpu_host::libc::memory::{
    calloc, free, gpu_heap_init, malloc, memcmp, memcpy, memmove, memset, posix_memalign, realloc,
    reserve, Device,
};
use gpu_host::libc::string::{strcmp, strlen, strncmp};

fn thread(x: u32) -> ThreadPos {
    ThreadPos { tid_x: x, tid_y: 0, tid_z: 0, ntid_x: 32, ntid_y: 1 }
}

fn device(size: usize, heap_at: usize, heap_size: usize) -> Device {
    let mut dev = Device::new(vec![0xAA; size]);
    gpu_heap_init(&mut dev, heap_at, heap_size);
    dev
}

#[test]
fn threads_are_numbered_along_x_then_y_then_z() {
    let at = ThreadPos { tid_x: 3, tid_y: 2, tid_z: 1, ntid_x: 8, ntid_y: 4 };
    assert_eq!(thread_id_in_block(&at), 3 + 2 * 8 + 1 * 8 * 4);
    assert_eq!(errno_index(&at), 51);
}

#[test]
fn threads_beyond_the_table_share_slot_zero() {
    let at = ThreadPos { tid_x: 1024, tid_y: 0, tid_z: 0, ntid_x: 2048, ntid_y: 1 };
    assert_eq!(thread_id_in_block(&at), 1024);
    assert_eq!(errno_index(&at), 0);
}

#[test]
fn errno_is_kept_per_thread() {
    let mut errno = Errno::new();
    assert_eq!(get_errno(&errno, &thread(5)), 0);
    set_errno(&mut errno, &thread(5), EINVAL);
    set_errno(&mut errno, &thread(6), ENOMEM);
    assert_eq!(get_errno(&errno, &thread(5)), 22);
    assert_eq!(get_errno(&errno, &thread(6)), 12);
    assert_eq!(get_errno(&errno, &thread(7)), 0);
}

#[test]
fn memory_is_copied_set_and_compared() {
    let mut mem: Vec<u8> = (0..16).collect();
    assert_eq!(memcpy(&mut mem, 8, 0, 4), 8);
    assert_eq!(mem, vec![0, 1, 2, 3, 4, 5, 6, 7, 0, 1, 2, 3, 12, 13, 14, 15]);
    assert_eq!(memcmp(&mem, 0, 8, 4), 0);
    assert_eq!(memcmp(&mem, 4, 12, 2), -8);
    assert_eq!(memcmp(&mem, 12, 4, 2), 8);
    assert_eq!(memset(&mut mem, 1, 0x1FF, 3), 1);
    assert_eq!(&mem[0..5], &[0, 255, 255, 255, 4]);
}

#[test]
fn overlapping_moves_keep_the_bytes() {
    let mut mem: Vec<u8> = (0..8).collect();
    assert_eq!(memmove(&mut mem, 2, 0, 5), 2);
    assert_eq!(mem, vec![0, 1, 0, 1, 2, 3, 4, 7]);
    let mut mem: Vec<u8> = (0..8).collect();
    assert_eq!(memmove(&mut mem, 0, 2, 5), 0);
    assert_eq!(mem, vec![2, 3, 4, 5, 6, 5, 6, 7]);
}

#[test]
fn claims_are_aligned_and_bounded() {
    assert_eq!(reserve(100, 200, 16, 64), Some((112, 176)));
    assert_eq!(reserve(112, 176, 16, 64), Some((112, 176)));
    assert_eq!(reserve(113, 176, 16, 64), None);
}

#[test]
fn blocks_are_sixteen_byte_aligned_and_apart() {
    let mut dev = device(1024, 100, 500);
    let a = malloc(&mut dev, &thread(0), 10);
    let b = malloc(&mut dev, &thread(1), 64);
    let c = malloc(&mut dev, &thread(2), 1);
    assert_eq!((a, b, c), (112, 128, 192));
    free(&mut dev, b);
    assert_eq!(malloc(&mut dev, &thread(2), 1), 208);
}

#[test]
fn an_empty_block_is_null_and_no_error() {
    let mut dev = device(1024, 16, 512);
    assert_eq!(malloc(&mut dev, &thread(0), 0), 0);
    assert_eq!(get_errno(&dev.errno, &thread(0)), 0);
}

#[test]
fn a_full_heap_sets_enomem() {
    let mut dev = device(1024, 16, 64);
    assert_eq!(malloc(&mut dev, &thread(3), 64), 16);
    assert_eq!(malloc(&mut dev, &thread(3), 1), 0);
    assert_eq!(get_errno(&dev.errno, &thread(3)), ENOMEM);
    assert_eq!(get_errno(&dev.errno, &thread(4)), 0);
}

#[test]
fn calloc_clears_and_refuses_overflow() {
    let mut dev = device(256, 16, 128);
    let p = calloc(&mut dev, &thread(0), 3, 4);
    assert_eq!(p, 16);
    assert_eq!(&dev.mem[16..28], &[0; 12]);
    assert_eq!(dev.mem[28], 0xAA);
    assert_eq!(calloc(&mut dev, &thread(1), usize::MAX, 2), 0);
    assert_eq!(get_errno(&dev.errno, &thread(1)), ENOMEM);
}

#[test]
fn the_last_block_can_grow() {
    let mut dev = device(256, 16, 200);
    let p = malloc(&mut dev, &thread(0), 16);
    for i in 0..16 {
        dev.mem[p + i] = i as u8;
    }
    let q = realloc(&mut dev, &thread(0), p, 32);
    assert_eq!(q, p + 16);
    let bytes: Vec<u8> = (0..16).collect();
    assert_eq!(&dev.mem[q..q + 16], &bytes[..]);
    assert_eq!(&dev.mem[p..p + 16], &bytes[..]);
    // Growing further than the heap goes leaves everything as it is.
    let before = dev.mem.clone();
    assert_eq!(realloc(&mut dev, &thread(3), q, 200), 0);
    assert_eq!(get_errno(&dev.errno, &thread(3)), ENOMEM);
    assert_eq!(dev.mem, before);
}

#[test]
fn a_forward_copy_repeats_what_it_wrote() {
    let mut mem: Vec<u8> = (0..8).collect();
    assert_eq!(memcpy(&mut mem, 2, 0, 5), 2);
    assert_eq!(mem, vec![0, 1, 0, 1, 0, 1, 0, 7]);
}

#[test]
fn realloc_moves_the_bytes() {
    let mut dev = device(256, 16, 128);
    let p = realloc(&mut dev, &thread(0), 0, 4);
    assert_eq!(p, 16);
    dev.mem[16..20].copy_from_slice(&[1, 2, 3, 4]);
    let q = realloc(&mut dev, &thread(0), p, 8);
    assert_eq!(q, 32);
    assert_eq!(&dev.mem[32..36], &[1, 2, 3, 4]);
    assert_eq!(realloc(&mut dev, &thread(0), q, 0), 0);
}

#[test]
fn aligned_allocation_checks_its_alignment() {
    let mut dev = device(1024, 16, 512);
    let mut p = 7;
    assert_eq!(posix_memalign(&mut dev, &mut p, 128, 10), 0);
    assert_eq!(p, 128);
    assert_eq!(posix_memalign(&mut dev, &mut p, 24, 10), EINVAL);
    assert_eq!(posix_memalign(&mut dev, &mut p, 4, 10), EINVAL);
    assert_eq!(posix_memalign(&mut dev, &mut p, 16, 4096), ENOMEM);
    assert_eq!(p, 128);
}

#[test]
fn strings_end_at_their_zero() {
    let mem = b"\0hello\0help\0hel\0".to_vec();
    assert_eq!(strlen(&mem, 1), 5);
    assert_eq!(strlen(&mem, 0), 0);
    assert_eq!(strcmp(&mem, 1, 1), 0);
    assert_eq!(strcmp(&mem, 1, 7), (b'l' as i32) - (b'p' as i32));
    assert_eq!(strcmp(&mem, 12, 1), -(b'l' as i32));
    assert_eq!(strncmp(&mem, 1, 7, 3), 0);
    assert_eq!(strncmp(&mem, 1, 7, 4), (b'l' as i32) - (b'p' as i32));
    assert_eq!(strncmp(&mem, 1, 7, 0), 0);
}
