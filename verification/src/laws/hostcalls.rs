//! Laws of the calls between device and host.

use vstd::prelude::*;

use crate::bytes::{slot_at, slot_is_read_back};
use crate::hostcall::buffer::PAYLOAD_BYTES;
use crate::hostcall::protocol::{
    category_of, failure_reply, ErrorCategory, IoErrorKind, IoFailure, OpenCodes, Reply, Service,
    ServiceCodes,
};
use crate::hostcall::requests::{action_for, answered_payload, IoAction};
use crate::warp::poll::OpenMode;

verus! {

/// Each service has the number that stands under its own name.
pub proof fn services_have_their_own_numbers(c: ServiceCodes)
    ensures
        c.code_of(Service::Nop) == c.nop,
        c.code_of(Service::Print) == c.print,
        c.code_of(Service::Time) == c.time,
        c.code_of(Service::Panic) == c.panic,
        c.code_of(Service::Open) == c.open,
        c.code_of(Service::Write) == c.write,
        c.code_of(Service::Read) == c.read,
        c.code_of(Service::Close) == c.close,
        c.code_of(Service::Stdin) == c.stdin,
        c.code_of(Service::BulkWrite) == c.bulk_write,
        c.code_of(Service::BulkRead) == c.bulk_read,
        c.code_of(Service::BulkPrint) == c.bulk_print,
{
}

/// Each way to open a file has the number that stands under its own name.
pub proof fn open_modes_have_their_own_numbers(c: OpenCodes)
    ensures
        c.code_of(OpenMode::Read) == c.read,
        c.code_of(OpenMode::WriteCreate) == c.write_create,
        c.code_of(OpenMode::Append) == c.append,
{
}

/// The device can tell the reasons of failed operations apart, and each of them from a
/// descriptor that is not open.
pub proof fn reasons_are_told_apart(a: IoErrorKind, b: IoErrorKind)
    ensures
        category_of(a) == category_of(b) <==> a == b,
        category_of(a) != ErrorCategory::InvalidFd,
        category_of(a) == ErrorCategory::NotFound <==> a == IoErrorKind::NotFound,
        category_of(a) == ErrorCategory::PermissionDenied <==> a == IoErrorKind::PermissionDenied,
        category_of(a) == ErrorCategory::AlreadyExists <==> a == IoErrorKind::AlreadyExists,
        category_of(a) == ErrorCategory::InvalidInput <==> a == IoErrorKind::InvalidInput,
        category_of(a) == ErrorCategory::TimedOut <==> a == IoErrorKind::TimedOut,
        category_of(a) == ErrorCategory::WouldBlock <==> a == IoErrorKind::WouldBlock,
        category_of(a) == ErrorCategory::BrokenPipe <==> a == IoErrorKind::BrokenPipe,
        category_of(a) == ErrorCategory::OutOfMemory <==> a == IoErrorKind::OutOfMemory,
        category_of(a) == ErrorCategory::Unsupported <==> a == IoErrorKind::Unsupported,
{
}

/// A failure is answered with its own reason, and without a number if the operating system
/// gave none.
pub proof fn failures_keep_their_reason(e: IoFailure)
    ensures
        match failure_reply(e) {
            Reply::Failed { category, errno } => {
                &&& category == category_of(e.kind)
                &&& e.raw_os_error is None ==> errno == 0
            },
            Reply::Value(_) => false,
        },
{
}

/// A file operation that is carried out is the one that was asked for: a read never leads to a
/// write, and the descriptor is the one in the first slot.
pub proof fn requests_lead_to_their_own_action<H>(
    service: Service,
    payload: Seq<u8>,
    open: Map<u64, H>,
    capacity: u64,
    codes: OpenCodes,
    action: IoAction,
)
    requires
        action_for(service, payload, open, capacity, codes, action),
    ensures
        match action {
            IoAction::OpenFile(_) => service == Service::Open,
            IoAction::WriteFile { fd, .. } => service == Service::Write && fd == slot_at(payload, 0)
                && open.contains_key(fd),
            IoAction::ReadFile { fd, max } => {
                &&& service == Service::Read
                &&& fd == slot_at(payload, 0)
                &&& open.contains_key(fd)
                &&& max <= 56
                &&& max <= slot_at(payload, 8)
            },
            IoAction::CloseFile { fd } => service == Service::Close && fd == slot_at(payload, 0),
            IoAction::ReadStdin { max } => service == Service::Stdin && max <= 56 && max <= slot_at(
                payload,
                0,
            ),
            IoAction::BulkWrite { fd, offset, length } => {
                &&& service == Service::BulkWrite
                &&& fd == slot_at(payload, 0)
                &&& offset == slot_at(payload, 8)
                &&& length == slot_at(payload, 16)
            },
            IoAction::BulkRead { fd, offset, length } => {
                &&& service == Service::BulkRead
                &&& fd == slot_at(payload, 0)
                &&& offset == slot_at(payload, 8)
                &&& length == slot_at(payload, 16)
            },
            IoAction::Answer(reply) => reply is Failed && service != Service::Close && service
                != Service::Stdin,
            IoAction::Refuse => service != Service::Open && service != Service::Write && service
                != Service::Read && service != Service::Close && service != Service::Stdin
                && service != Service::BulkWrite && service != Service::BulkRead,
        },
{
}

/// A written file gets the bytes of the payload from the third slot on, as many as the second
/// slot says but no more than fit.
pub proof fn writes_take_their_bytes<H>(
    payload: Seq<u8>,
    open: Map<u64, H>,
    capacity: u64,
    codes: OpenCodes,
    action: IoAction,
    data: Seq<u8>,
)
    requires
        payload.len() == PAYLOAD_BYTES,
        action_for(Service::Write, payload, open, capacity, codes, action),
        open.contains_key(slot_at(payload, 0)),
        data.len() <= 48,
        slot_at(payload, 8) == data.len(),
        payload.subrange(16, 16 + data.len() as int) == data,
    ensures
        action matches IoAction::WriteFile { data: sent, .. } && sent@ == data,
{
}

/// An answer stands in the first slot and leaves the rest of the payload alone.
pub proof fn answers_stand_in_the_first_slot(payload: Seq<u8>, value: u64, i: int)
    requires
        payload.len() == PAYLOAD_BYTES,
        8 <= i < PAYLOAD_BYTES,
    ensures
        slot_at(answered_payload(payload, value), 0) == value,
        answered_payload(payload, value)[i] == payload[i],
{
    slot_is_read_back(payload, 0, value);
}

} // verus!
