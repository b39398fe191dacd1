//! Requests and answers in the payload of a packet.
//!
//! | service    | request                                         | answer              |
//! |------------|-------------------------------------------------|---------------------|
//! | print      | 0: length, 1-7: message                         |                     |
//! | open       | 0: path length, flags above it, 1-7: path       | 0: descriptor       |
//! | write      | 0: descriptor, 1: length, 2-7: data             | 0: bytes written    |
//! | read       | 0: descriptor, 1: most bytes                    | 0: bytes, 1-7: data |
//! | time       |                                                 | 0: s, 1: ns         |
//! | panic      | 0: where and length, 1-7: message               |                     |
//! | close      | 0: descriptor                                   | 0: zero             |
//! | stdin      | 0: most bytes                                   | 0: bytes, 1-7: data |
//! | bulk write | 0: descriptor, 1: sideband offset, 2: length    | 0: bytes written    |
//! | bulk read  | 0: descriptor, 1: sideband offset, 2: most bytes| 0: bytes            |
//! | bulk print | 0: sideband offset, 1: length                   |                     |
//!
//! An answer with an error has the encoded error in slot 0.

use vstd::prelude::*;
use vstd::utf8::{decode_utf8, encode_utf8, valid_utf8};

use crate::bytes::{
    patched, read_slot, slot_at, slot_bytes, slot_is_read_back, write_slot,
};
use crate::hostcall::batch::{split, split_messages, views};
use crate::hostcall::buffer::PAYLOAD_BYTES;
use crate::hostcall::files::FdTable;
use crate::hostcall::protocol::{
    failure_reply, write_error_response, ErrorCategory, IoErrorKind, IoFailure, OpenCodes, Reply,
    Service,
};
use crate::text::utf8_text;
use crate::warp::poll::OpenMode;

verus! {

/// The most bytes of a message, a path, or data that is read.
pub const MAX_INLINE: usize = 56;

/// The most bytes of data that is written.
pub const MAX_WRITE: usize = 48;

/// A length cut off at a limit.
pub open spec fn capped(len: u64, limit: int) -> int {
    if len < limit {
        len as int
    } else {
        limit
    }
}

/// The bytes of a payload that a length and a limit leave, from `at` on.
pub open spec fn inline_bytes(payload: Seq<u8>, at: int, len: u64, limit: int) -> Seq<u8> {
    payload.subrange(at, at + capped(len, limit))
}

fn take_bytes(payload: &Vec<u8>, at: usize, len: u64, limit: usize) -> (r: Vec<u8>)
    requires
        payload@.len() == PAYLOAD_BYTES,
        at + limit <= PAYLOAD_BYTES,
    ensures
        r@ == inline_bytes(payload@, at as int, len, limit as int),
{
    let n: usize = if len < limit as u64 {
        len as usize
    } else {
        limit
    };
    let mut r: Vec<u8> = Vec::new();
    for i in 0..n
        invariant
            payload@.len() == PAYLOAD_BYTES,
            n <= limit,
            at + limit <= PAYLOAD_BYTES,
            r@ == payload@.subrange(at as int, at + i),
    {
        r.push(payload[at + i]);
    }
    r
}

/// The message of a print request.
pub fn print_message(payload: &Vec<u8>) -> (r: Vec<u8>)
    requires
        payload@.len() == PAYLOAD_BYTES,
    ensures
        r@ == inline_bytes(payload@, 8, slot_at(payload@, 0), 56),
{
    let len: u64 = read_slot(payload.as_slice(), 0);
    take_bytes(payload, 8, len, MAX_INLINE)
}

/// The text of a panic request whose message is said to be `len` bytes long, or a
/// placeholder if it is not valid text.
pub fn panic_message(payload: &Vec<u8>, len: u64) -> (r: String)
    requires
        payload@.len() == PAYLOAD_BYTES,
    ensures
        ({
            let bytes = inline_bytes(payload@, 8, len, 56);
            r@ == if valid_utf8(bytes) {
                decode_utf8(bytes)
            } else {
                "<invalid UTF-8>"@
            }
        }),
{
    let bytes: Vec<u8> = take_bytes(payload, 8, len, MAX_INLINE);
    match utf8_text(bytes.as_slice()) {
        Some(s) => s,
        None => "<invalid UTF-8>".to_string(),
    }
}

/// The stretch of the sideband space that a bulk print names: its offset and its length.
pub open spec fn bulk_stretch(payload: Seq<u8>) -> (int, int) {
    (slot_at(payload, 0) as int, slot_at(payload, 8) as int)
}

/// The messages of a bulk print, in the order in which they were put into the batch. A stretch
/// beyond the sideband space is an error.
pub fn bulk_messages(payload: &Vec<u8>, sideband: &Vec<u8>) -> (r: Result<Vec<Vec<u8>>, Reply>)
    requires
        payload@.len() == PAYLOAD_BYTES,
    ensures
        ({
            let (off, len) = bulk_stretch(payload@);
            match r {
                Ok(m) => off + len <= sideband@.len() && views(m@) == split(
                    sideband@.subrange(off, off + len),
                ),
                Err(e) => off + len > sideband@.len() && e == out_of_bounds(),
            }
        }),
{
    let offset: u64 = read_slot(payload.as_slice(), 0);
    let length: u64 = read_slot(payload.as_slice(), 8);
    let capacity: u64 = sideband.len() as u64;
    if offset > capacity || length > capacity - offset {
        return Err(Reply::Failed { category: ErrorCategory::InvalidInput, errno: 0 });
    }
    Ok(split_messages(sideband, offset as usize, (offset + length) as usize))
}

/// The messages that a service prints: one for a print, those of the batch for a bulk print,
/// and none for any other service.
pub open spec fn printed(s: Service, payload: Seq<u8>, sideband: Seq<u8>) -> Seq<Seq<u8>> {
    let (off, len) = bulk_stretch(payload);
    match s {
        Service::Print => seq![inline_bytes(payload, 8, slot_at(payload, 0), 56)],
        Service::BulkPrint => if off + len <= sideband.len() {
            split(sideband.subrange(off, off + len))
        } else {
            Seq::empty()
        },
        _ => Seq::empty(),
    }
}

/// The messages that the listener prints before it answers a packet that asks for this
/// service, or the error that it answers with instead.
pub fn printed_messages(s: Service, payload: &Vec<u8>, sideband: &Vec<u8>) -> (r: Result<
    Vec<Vec<u8>>,
    Reply,
>)
    requires
        payload@.len() == PAYLOAD_BYTES,
    ensures
        ({
            let (off, len) = bulk_stretch(payload@);
            match r {
                Ok(m) => views(m@) == printed(s, payload@, sideband@) && !(s == Service::BulkPrint
                    && off + len > sideband@.len()),
                Err(e) => s == Service::BulkPrint && off + len > sideband@.len() && e
                    == out_of_bounds(),
            }
        }),
{
    match s {
        Service::Print => {
            let mut r: Vec<Vec<u8>> = Vec::new();
            r.push(print_message(payload));
            assert(views(r@) =~= printed(s, payload@, sideband@));
            Ok(r)
        },
        Service::BulkPrint => bulk_messages(payload, sideband),
        _ => {
            let r: Vec<Vec<u8>> = Vec::new();
            assert(views(r@) =~= printed(s, payload@, sideband@));
            Ok(r)
        },
    }
}

/// A file to open.
#[derive(Debug)]
pub struct OpenRequest {
    pub path: String,
    pub mode: OpenMode,
}

/// A failure without a number of the operating system.
pub open spec fn plain_failure(kind: IoErrorKind) -> IoFailure {
    IoFailure { kind, raw_os_error: None }
}

/// The path and the flags of an open request.
pub open spec fn open_fields(payload: Seq<u8>) -> (Seq<u8>, u32) {
    let slot0 = slot_at(payload, 0);
    (
        inline_bytes(payload, 8, (slot0 % 0x1_0000_0000) as u64, 56),
        (slot0 / 0x1_0000_0000) as u32,
    )
}

/// Reads an open request. A path that is not valid text and flags that nobody knows are
/// invalid input.
pub fn open_request(payload: &Vec<u8>, codes: &OpenCodes) -> (r: Result<OpenRequest, IoFailure>)
    requires
        payload@.len() == PAYLOAD_BYTES,
        codes.distinct(),
    ensures
        ({
            let (path, flags) = open_fields(payload@);
            match r {
                Ok(q) => {
                    &&& valid_utf8(path)
                    &&& q.path@ == decode_utf8(path)
                    &&& codes.code_of(q.mode) == flags
                },
                Err(e) => {
                    &&& e == plain_failure(IoErrorKind::InvalidInput)
                    &&& !valid_utf8(path) || forall|m: OpenMode| #[trigger]
                        codes.code_of(m) != flags
                },
            }
        }),
{
    let slot0: u64 = read_slot(payload.as_slice(), 0);
    let path_len: u64 = slot0 % 0x1_0000_0000;
    let flags: u32 = (slot0 / 0x1_0000_0000) as u32;
    let path: Vec<u8> = take_bytes(payload, 8, path_len, MAX_INLINE);
    match utf8_text(path.as_slice()) {
        None => Err(IoFailure { kind: IoErrorKind::InvalidInput, raw_os_error: None }),
        Some(path) => match codes.mode(flags) {
            None => Err(IoFailure { kind: IoErrorKind::InvalidInput, raw_os_error: None }),
            Some(mode) => Ok(OpenRequest { path, mode }),
        },
    }
}

/// What the thread that may block does for a packet.
#[derive(Debug)]
pub enum IoAction {
    OpenFile(OpenRequest),
    WriteFile { fd: u64, data: Vec<u8> },
    ReadFile { fd: u64, max: usize },
    CloseFile { fd: u64 },
    ReadStdin { max: usize },
    BulkWrite { fd: u64, offset: u64, length: u64 },
    BulkRead { fd: u64, offset: u64, length: u64 },
    /// Answer without any of these.
    Answer(Reply),
    /// Mark the packet as failed and leave its payload alone.
    Refuse,
}

/// The answer for a descriptor that is not open.
pub open spec fn bad_fd() -> Reply {
    Reply::Failed { category: ErrorCategory::InvalidFd, errno: 0 }
}

/// The answer for a stretch beyond the sideband space.
pub open spec fn out_of_bounds() -> Reply {
    Reply::Failed { category: ErrorCategory::InvalidInput, errno: 0 }
}

/// What is done for a request.
pub open spec fn action_for<H>(
    service: Service,
    payload: Seq<u8>,
    open: Map<u64, H>,
    capacity: u64,
    codes: OpenCodes,
    action: IoAction,
) -> bool {
    let (s0, s1, s2) = (slot_at(payload, 0), slot_at(payload, 8), slot_at(payload, 16));
    match service {
        Service::Open => {
            let (path, flags) = open_fields(payload);
            if valid_utf8(path) && exists|m: OpenMode| #[trigger] codes.code_of(m) == flags {
                action matches IoAction::OpenFile(q) && q.path@ == decode_utf8(path)
                    && codes.code_of(q.mode) == flags
            } else {
                action == IoAction::Answer(failure_reply(plain_failure(IoErrorKind::InvalidInput)))
            }
        },
        Service::Write => if open.contains_key(s0) {
            action matches IoAction::WriteFile { fd, data } && fd == s0 && data@ == inline_bytes(
                payload,
                16,
                s1,
                48,
            )
        } else {
            action == IoAction::Answer(bad_fd())
        },
        Service::Read => if open.contains_key(s0) {
            action == (IoAction::ReadFile { fd: s0, max: capped(s1, 56) as usize })
        } else {
            action == IoAction::Answer(bad_fd())
        },
        Service::Close => action == (IoAction::CloseFile { fd: s0 }),
        Service::Stdin => action == (IoAction::ReadStdin { max: capped(s0, 56) as usize }),
        Service::BulkWrite => if s1 + s2 > capacity {
            action == IoAction::Answer(out_of_bounds())
        } else if open.contains_key(s0) {
            action == (IoAction::BulkWrite { fd: s0, offset: s1, length: s2 })
        } else {
            action == IoAction::Answer(bad_fd())
        },
        Service::BulkRead => if s1 + s2 > capacity {
            action == IoAction::Answer(out_of_bounds())
        } else if open.contains_key(s0) {
            action == (IoAction::BulkRead { fd: s0, offset: s1, length: s2 })
        } else {
            action == IoAction::Answer(bad_fd())
        },
        _ => action == IoAction::Refuse,
    }
}

/// Decides what is done for a packet that was handed on. A stretch of the sideband space
/// is checked before the descriptor.
pub fn io_action<H>(
    service: Service,
    payload: &Vec<u8>,
    table: &FdTable<H>,
    capacity: u64,
    codes: &OpenCodes,
) -> (r: IoAction)
    requires
        payload@.len() == PAYLOAD_BYTES,
        codes.distinct(),
    ensures
        action_for(service, payload@, table@, capacity, *codes, r),
{
    let s0: u64 = read_slot(payload.as_slice(), 0);
    let s1: u64 = read_slot(payload.as_slice(), 8);
    let s2: u64 = read_slot(payload.as_slice(), 16);
    let invalid_fd = Reply::Failed { category: ErrorCategory::InvalidFd, errno: 0 };
    let beyond = Reply::Failed { category: ErrorCategory::InvalidInput, errno: 0 };
    let outside: bool = s1 > capacity || s2 > capacity - s1;
    match service {
        Service::Open => match open_request(payload, codes) {
            Ok(q) => IoAction::OpenFile(q),
            Err(e) => IoAction::Answer(write_error_response(&e)),
        },
        Service::Write => {
            let data: Vec<u8> = take_bytes(payload, 16, s1, MAX_WRITE);
            if table.is_open(s0) {
                IoAction::WriteFile { fd: s0, data }
            } else {
                IoAction::Answer(invalid_fd)
            }
        },
        Service::Read => {
            if table.is_open(s0) {
                let max: usize = if s1 < 56 {
                    s1 as usize
                } else {
                    56
                };
                IoAction::ReadFile { fd: s0, max }
            } else {
                IoAction::Answer(invalid_fd)
            }
        },
        Service::Close => IoAction::CloseFile { fd: s0 },
        Service::Stdin => {
            let max: usize = if s0 < 56 {
                s0 as usize
            } else {
                56
            };
            IoAction::ReadStdin { max }
        },
        Service::BulkWrite => {
            if outside {
                IoAction::Answer(beyond)
            } else if table.is_open(s0) {
                IoAction::BulkWrite { fd: s0, offset: s1, length: s2 }
            } else {
                IoAction::Answer(invalid_fd)
            }
        },
        Service::BulkRead => {
            if outside {
                IoAction::Answer(beyond)
            } else if table.is_open(s0) {
                IoAction::BulkRead { fd: s0, offset: s1, length: s2 }
            } else {
                IoAction::Answer(invalid_fd)
            }
        },
        _ => IoAction::Refuse,
    }
}

/// Answers an open: a file that was opened gets the next descriptor.
pub fn finish_open<H>(table: &mut FdTable<H>, result: Result<H, IoFailure>) -> (r: Reply)
    requires
        old(table).wf(),
        old(table).next_fd < u64::MAX,
    ensures
        final(table).wf(),
        match result {
            Ok(file) => {
                &&& r == Reply::Value(old(table).next_fd)
                &&& final(table)@ == old(table)@.insert(old(table).next_fd, file)
                &&& final(table).next_fd == old(table).next_fd + 1
            },
            Err(e) => {
                &&& r == failure_reply(e)
                &&& final(table)@ == old(table)@
                &&& final(table).next_fd == old(table).next_fd
            },
        },
{
    match result {
        Ok(file) => Reply::Value(table.insert(file)),
        Err(e) => write_error_response(&e),
    }
}

/// Answers a write, a bulk write or a bulk read that moved `n` bytes or failed.
pub fn finish_transfer(result: Result<u64, IoFailure>) -> (r: Reply)
    ensures
        r == match result {
            Ok(n) => Reply::Value(n),
            Err(e) => failure_reply(e),
        },
{
    match result {
        Ok(n) => Reply::Value(n),
        Err(e) => write_error_response(&e),
    }
}

/// Answers a close: the file leaves the table, or the descriptor was not open.
pub fn finish_close<H>(table: &mut FdTable<H>, fd: u64) -> (r: (Reply, Option<H>))
    requires
        old(table).wf(),
    ensures
        final(table).wf(),
        final(table)@ == old(table)@.remove(fd),
        final(table).next_fd == old(table).next_fd,
        if old(table)@.contains_key(fd) {
            r == (Reply::Value(0), Some(old(table)@[fd]))
        } else {
            r == (bad_fd(), None::<H>)
        },
{
    match table.remove(fd) {
        Some(file) => (Reply::Value(0), Some(file)),
        None => (Reply::Failed { category: ErrorCategory::InvalidFd, errno: 0 }, None),
    }
}

/// A payload with an answer in slot 0.
pub open spec fn answered_payload(payload: Seq<u8>, value: u64) -> Seq<u8> {
    patched(payload, 0, slot_bytes(value))
}

/// Puts an answer into a payload and reports whether it is an error. `error_word` is the
/// encoding of the error.
pub fn put_reply(payload: &mut Vec<u8>, reply: &Reply, error_word: u64) -> (has_error: bool)
    requires
        old(payload)@.len() == PAYLOAD_BYTES,
    ensures
        has_error == (reply is Failed),
        final(payload)@ == answered_payload(
            old(payload)@,
            match *reply {
                Reply::Value(v) => v,
                Reply::Failed { .. } => error_word,
            },
        ),
{
    match reply {
        Reply::Value(v) => {
            write_slot(payload, 0, *v);
            false
        },
        Reply::Failed { .. } => {
            write_slot(payload, 0, error_word);
            true
        },
    }
}

/// Puts data that was read into a payload: its length in slot 0, and the bytes behind it.
pub fn put_data(payload: &mut Vec<u8>, data: &Vec<u8>)
    requires
        old(payload)@.len() == PAYLOAD_BYTES,
        data@.len() <= MAX_INLINE,
    ensures
        final(payload)@ == patched(
            answered_payload(old(payload)@, data@.len() as u64),
            8,
            data@,
        ),
{
    write_slot(payload, 0, data.len() as u64);
    let ghost before = payload@;
    for i in 0..data.len()
        invariant
            data@.len() <= MAX_INLINE,
            before.len() == PAYLOAD_BYTES,
            payload@ == patched(before, 8, data@.take(i as int)),
    {
        payload.set(8 + i, data[i]);
        assert(payload@ =~= patched(before, 8, data@.take(i + 1)));
    }
    assert(data@.take(data@.len() as int) =~= data@);
}

/// Puts the time into a payload: the seconds and nanoseconds since the epoch, or
/// `sentinel` and zero if the clock stands before it. A clock error does not mark the
/// packet as failed.
pub fn put_time(payload: &mut Vec<u8>, time: Option<(u64, u64)>, sentinel: u64) -> (has_error: bool)
    requires
        old(payload)@.len() == PAYLOAD_BYTES,
    ensures
        !has_error,
        ({
            let (s, ns) = match time {
                Some((s, ns)) => (s, ns),
                None => (sentinel, 0u64),
            };
            final(payload)@ == patched(answered_payload(old(payload)@, s), 8, slot_bytes(ns))
        }),
{
    match time {
        Some((secs, nanos)) => {
            write_slot(payload, 0, secs);
            write_slot(payload, 8, nanos);
        },
        None => {
            write_slot(payload, 0, sentinel);
            write_slot(payload, 8, 0);
        },
    }
    false
}

/// Fills in a print request.
pub fn fill_print(payload: &mut Vec<u8>, message: &Vec<u8>)
    requires
        old(payload)@.len() == PAYLOAD_BYTES,
        message@.len() <= MAX_INLINE,
    ensures
        final(payload)@ == patched(
            answered_payload(old(payload)@, message@.len() as u64),
            8,
            message@,
        ),
{
    put_data(payload, message);
}

/// Fills in an open request: the flags stand above the path's length in slot 0.
pub fn fill_open(payload: &mut Vec<u8>, path: &Vec<u8>, flags: u32)
    requires
        old(payload)@.len() == PAYLOAD_BYTES,
        path@.len() <= MAX_INLINE,
    ensures
        final(payload)@ == patched(
            answered_payload(
                old(payload)@,
                (path@.len() + flags * 0x1_0000_0000) as u64,
            ),
            8,
            path@,
        ),
{
    let slot0: u64 = path.len() as u64 + flags as u64 * 0x1_0000_0000;
    write_slot(payload, 0, slot0);
    let ghost before = payload@;
    for i in 0..path.len()
        invariant
            path@.len() <= MAX_INLINE,
            before.len() == PAYLOAD_BYTES,
            payload@ == patched(before, 8, path@.take(i as int)),
    {
        payload.set(8 + i, path[i]);
        assert(payload@ =~= patched(before, 8, path@.take(i + 1)));
    }
    assert(path@.take(path@.len() as int) =~= path@);
}

/// The bytes of a sequence of 64-bit words.
pub open spec fn slots_bytes(words: Seq<u64>) -> Seq<u8>
    decreases words.len(),
{
    if words.len() == 0 {
        Seq::empty()
    } else {
        slots_bytes(words.drop_last()) + slot_bytes(words.last())
    }
}

proof fn lemma_slots_len(words: Seq<u64>)
    ensures
        slots_bytes(words).len() == 8 * words.len(),
    decreases words.len(),
{
    if words.len() > 0 {
        lemma_slots_len(words.drop_last());
    }
}

/// Fills in a request of one, two or three words, such as a close or a bulk transfer. What
/// is behind the words stays as it is.
pub fn fill_words(payload: &mut Vec<u8>, words: &Vec<u64>)
    requires
        old(payload)@.len() == PAYLOAD_BYTES,
        words@.len() <= 8,
    ensures
        final(payload)@ == patched(old(payload)@, 0, slots_bytes(words@)),
        final(payload)@.skip(8 * words@.len() as int) == old(payload)@.skip(
            8 * words@.len() as int,
        ),
        forall|i: int|
            0 <= i < words@.len() ==> #[trigger] slot_at(final(payload)@, 8 * i) == words@[i],
{
    let ghost start = payload@;
    assert(payload@ =~= patched(start, 0, slots_bytes(words@.take(0))));
    for i in 0..words.len()
        invariant
            words@.len() <= 8,
            start.len() == PAYLOAD_BYTES,
            payload@.len() == PAYLOAD_BYTES,
            payload@ == patched(start, 0, slots_bytes(words@.take(i as int))),
            forall|j: int| 0 <= j < i ==> #[trigger] slot_at(payload@, 8 * j) == words@[j],
    {
        let ghost before = payload@;
        write_slot(payload, 8 * i, words[i]);
        proof {
            let next = words@.take(i + 1);
            assert(next.drop_last() =~= words@.take(i as int));
            assert(next.last() == words@[i as int]);
            lemma_slots_len(words@.take(i as int));
            assert(payload@ =~= patched(start, 0, slots_bytes(next)));
            slot_is_read_back(before, 8 * i, words@[i as int]);
            assert forall|j: int| 0 <= j < i + 1 implies #[trigger] slot_at(payload@, 8 * j)
                == words@[j] by {
                if j < i {
                    crate::bytes::word_elsewhere_is_kept(
                        before,
                        8 * i,
                        slot_bytes(words@[i as int]),
                        8 * j,
                    );
                    crate::bytes::word_elsewhere_is_kept(
                        before,
                        8 * i,
                        slot_bytes(words@[i as int]),
                        8 * j + 4,
                    );
                    assert(slot_at(before, 8 * j) == words@[j]);
                }
            }
        }
    }
    proof {
        lemma_slots_len(words@);
        assert(words@.take(words@.len() as int) =~= words@);
        let n = 8 * words@.len() as int;
        assert(payload@.skip(n) =~= start.skip(n));
    }
}

proof fn lemma_front_slot(payload: Seq<u8>, value: u64, data: Seq<u8>)
    requires
        payload.len() == PAYLOAD_BYTES,
        data.len() <= MAX_INLINE,
    ensures
        ({
            let p = patched(answered_payload(payload, value), 8, data);
            slot_at(p, 0) == value && p.subrange(8, 8 + data.len() as int) == data
        }),
{
    let q = answered_payload(payload, value);
    let p = patched(q, 8, data);
    slot_is_read_back(payload, 0, value);
    crate::bytes::word_elsewhere_is_kept(q, 8, data, 0);
    crate::bytes::word_elsewhere_is_kept(q, 8, data, 4);
    assert(p.subrange(8, 8 + data.len() as int) =~= data);
}

/// The host prints the message that the device sent.
pub proof fn messages_arrive(payload: Seq<u8>, message: Seq<u8>)
    requires
        payload.len() == PAYLOAD_BYTES,
        message.len() <= MAX_INLINE,
    ensures
        ({
            let p = patched(answered_payload(payload, message.len() as u64), 8, message);
            inline_bytes(p, 8, slot_at(p, 0), 56) == message
        }),
{
    lemma_front_slot(payload, message.len() as u64, message);
}

/// A word made of two halves is taken apart again.
proof fn lemma_halves(low: int, high: int)
    requires
        0 <= low < 0x1_0000_0000,
        0 <= high < 0x1_0000_0000,
    ensures
        0 <= low + high * 0x1_0000_0000 <= u64::MAX,
        (low + high * 0x1_0000_0000) % 0x1_0000_0000 == low,
        (low + high * 0x1_0000_0000) / 0x1_0000_0000 == high,
{
}

/// The host opens the path that the device named, in the way that it asked for.
pub proof fn paths_arrive(payload: Seq<u8>, path: Seq<u8>, flags: u32)
    requires
        payload.len() == PAYLOAD_BYTES,
        path.len() <= MAX_INLINE,
    ensures
        ({
            let slot0 = (path.len() + flags * 0x1_0000_0000) as u64;
            let p = patched(answered_payload(payload, slot0), 8, path);
            open_fields(p) == (path, flags)
        }),
{
    let slot0 = (path.len() + flags * 0x1_0000_0000) as u64;
    let p = patched(answered_payload(payload, slot0), 8, path);
    lemma_front_slot(payload, slot0, path);
    lemma_halves(path.len() as int, flags as int);
    assert(slot_at(p, 0) == slot0);
    assert(inline_bytes(p, 8, path.len() as u64, 56) == path);
}

/// A path that is text is opened under that text.
pub proof fn text_paths_keep_their_text(path: Seq<char>)
    ensures
        valid_utf8(encode_utf8(path)),
        decode_utf8(encode_utf8(path)) == path,
{
    vstd::utf8::encode_utf8_valid_utf8(path);
    vstd::utf8::encode_utf8_decode_utf8(path);
}

/// The device reads the value, or the data, that the host answered with.
pub proof fn answers_arrive(payload: Seq<u8>, value: u64, data: Seq<u8>)
    requires
        payload.len() == PAYLOAD_BYTES,
        data.len() <= MAX_INLINE,
    ensures
        slot_at(answered_payload(payload, value), 0) == value,
        ({
            let p = patched(answered_payload(payload, data.len() as u64), 8, data);
            slot_at(p, 0) == data.len() && p.subrange(8, 8 + data.len() as int) == data
        }),
{
    slot_is_read_back(payload, 0, value);
    lemma_front_slot(payload, data.len() as u64, data);
}

/// A bulk transfer that is carried out stays within the sideband space.
pub proof fn bulk_transfers_stay_in_bounds<H>(
    payload: Seq<u8>,
    open: Map<u64, H>,
    capacity: u64,
    codes: OpenCodes,
    action: IoAction,
)
    requires
        action_for(Service::BulkWrite, payload, open, capacity, codes, action) || action_for(
            Service::BulkRead,
            payload,
            open,
            capacity,
            codes,
            action,
        ),
    ensures
        action matches IoAction::BulkWrite { offset, length, .. } ==> offset + length <= capacity,
        action matches IoAction::BulkRead { offset, length, .. } ==> offset + length <= capacity,
{
}

/// Files are only touched through descriptors that are open.
pub proof fn files_need_open_descriptors<H>(
    service: Service,
    payload: Seq<u8>,
    open: Map<u64, H>,
    capacity: u64,
    codes: OpenCodes,
    action: IoAction,
)
    requires
        action_for(service, payload, open, capacity, codes, action),
    ensures
        action matches IoAction::WriteFile { fd, .. } ==> open.contains_key(fd),
        action matches IoAction::ReadFile { fd, .. } ==> open.contains_key(fd),
        action matches IoAction::BulkWrite { fd, .. } ==> open.contains_key(fd),
        action matches IoAction::BulkRead { fd, .. } ==> open.contains_key(fd),
{
}

} // verus!
