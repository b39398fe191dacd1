//! Services, error categories and the numbers that stand for them.
//!
//! The numbers belong to the protocol between the device and the host, which both
//! sides take from one table. Nothing here depends on which numbers they are, as long
//! as they differ.

use vstd::prelude::*;

use crate::warp::poll::OpenMode;

verus! {

/// What a packet asks for.
#[derive(Clone, Copy, Debug, PartialEq, Eq, Structural)]
pub enum Service {
    Nop,
    Print,
    Time,
    Panic,
    Open,
    Write,
    Read,
    Close,
    Stdin,
    BulkWrite,
    BulkRead,
    /// Print a batch of messages that stands in the sideband space.
    BulkPrint,
}

/// The numbers of the services.
#[derive(Clone, Copy, Debug, PartialEq, Eq, Structural)]
pub struct ServiceCodes {
    pub nop: u32,
    pub print: u32,
    pub time: u32,
    pub panic: u32,
    pub open: u32,
    pub write: u32,
    pub read: u32,
    pub close: u32,
    pub stdin: u32,
    pub bulk_write: u32,
    pub bulk_read: u32,
    pub bulk_print: u32,
}

impl ServiceCodes {
    /// The number of a service.
    pub open spec fn code_of(self, s: Service) -> u32 {
        match s {
            Service::Nop => self.nop,
            Service::Print => self.print,
            Service::Time => self.time,
            Service::Panic => self.panic,
            Service::Open => self.open,
            Service::Write => self.write,
            Service::Read => self.read,
            Service::Close => self.close,
            Service::Stdin => self.stdin,
            Service::BulkWrite => self.bulk_write,
            Service::BulkRead => self.bulk_read,
            Service::BulkPrint => self.bulk_print,
        }
    }

    /// No two services have the same number.
    pub open spec fn distinct(self) -> bool {
        forall|a: Service, b: Service| #[trigger]
            self.code_of(a) == #[trigger] self.code_of(b) ==> a == b
    }

    /// The number of a service.
    pub fn code(&self, s: Service) -> (r: u32)
        ensures
            r == self.code_of(s),
    {
        match s {
            Service::Nop => self.nop,
            Service::Print => self.print,
            Service::Time => self.time,
            Service::Panic => self.panic,
            Service::Open => self.open,
            Service::Write => self.write,
            Service::Read => self.read,
            Service::Close => self.close,
            Service::Stdin => self.stdin,
            Service::BulkWrite => self.bulk_write,
            Service::BulkRead => self.bulk_read,
            Service::BulkPrint => self.bulk_print,
        }
    }

    /// The service with a number, if there is one.
    pub fn service(&self, code: u32) -> (r: Option<Service>)
        requires
            self.distinct(),
        ensures
            match r {
                Some(s) => self.code_of(s) == code,
                None => forall|s: Service| #[trigger] self.code_of(s) != code,
            },
    {
        if code == self.nop {
            assert(self.code_of(Service::Nop) == code);
            Some(Service::Nop)
        } else if code == self.print {
            Some(Service::Print)
        } else if code == self.time {
            Some(Service::Time)
        } else if code == self.panic {
            Some(Service::Panic)
        } else if code == self.open {
            Some(Service::Open)
        } else if code == self.write {
            Some(Service::Write)
        } else if code == self.read {
            Some(Service::Read)
        } else if code == self.close {
            Some(Service::Close)
        } else if code == self.stdin {
            Some(Service::Stdin)
        } else if code == self.bulk_write {
            Some(Service::BulkWrite)
        } else if code == self.bulk_read {
            Some(Service::BulkRead)
        } else if code == self.bulk_print {
            Some(Service::BulkPrint)
        } else {
            None
        }
    }
}

/// The numbers of the ways to open a file.
#[derive(Clone, Copy, Debug, PartialEq, Eq, Structural)]
pub struct OpenCodes {
    pub read: u32,
    pub write_create: u32,
    pub append: u32,
}

impl OpenCodes {
    /// The number of a way to open a file.
    pub open spec fn code_of(self, m: OpenMode) -> u32 {
        match m {
            OpenMode::Read => self.read,
            OpenMode::WriteCreate => self.write_create,
            OpenMode::Append => self.append,
        }
    }

    /// No two ways have the same number.
    pub open spec fn distinct(self) -> bool {
        &&& self.read != self.write_create
        &&& self.read != self.append
        &&& self.write_create != self.append
    }

    /// The number of a way to open a file.
    pub fn code(&self, m: OpenMode) -> (r: u32)
        ensures
            r == self.code_of(m),
    {
        match m {
            OpenMode::Read => self.read,
            OpenMode::WriteCreate => self.write_create,
            OpenMode::Append => self.append,
        }
    }

    /// The way with a number, if there is one.
    pub fn mode(&self, code: u32) -> (r: Option<OpenMode>)
        requires
            self.distinct(),
        ensures
            match r {
                Some(m) => self.code_of(m) == code,
                None => forall|m: OpenMode| #[trigger] self.code_of(m) != code,
            },
    {
        if code == self.read {
            Some(OpenMode::Read)
        } else if code == self.write_create {
            Some(OpenMode::WriteCreate)
        } else if code == self.append {
            Some(OpenMode::Append)
        } else {
            None
        }
    }
}

/// Why an operation of the operating system failed.
#[derive(Clone, Copy, Debug, PartialEq, Eq, Structural)]
pub enum IoErrorKind {
    NotFound,
    PermissionDenied,
    AlreadyExists,
    InvalidInput,
    TimedOut,
    WouldBlock,
    BrokenPipe,
    OutOfMemory,
    Unsupported,
    /// Any other reason.
    Other,
}

/// The category of an error as the device sees it.
#[derive(Clone, Copy, Debug, PartialEq, Eq, Structural)]
pub enum ErrorCategory {
    NotFound,
    PermissionDenied,
    AlreadyExists,
    InvalidInput,
    TimedOut,
    WouldBlock,
    BrokenPipe,
    OutOfMemory,
    Unsupported,
    InvalidFd,
    Other,
}

/// The category of an error of the operating system.
pub open spec fn category_of(kind: IoErrorKind) -> ErrorCategory {
    match kind {
        IoErrorKind::NotFound => ErrorCategory::NotFound,
        IoErrorKind::PermissionDenied => ErrorCategory::PermissionDenied,
        IoErrorKind::AlreadyExists => ErrorCategory::AlreadyExists,
        IoErrorKind::InvalidInput => ErrorCategory::InvalidInput,
        IoErrorKind::TimedOut => ErrorCategory::TimedOut,
        IoErrorKind::WouldBlock => ErrorCategory::WouldBlock,
        IoErrorKind::BrokenPipe => ErrorCategory::BrokenPipe,
        IoErrorKind::OutOfMemory => ErrorCategory::OutOfMemory,
        IoErrorKind::Unsupported => ErrorCategory::Unsupported,
        IoErrorKind::Other => ErrorCategory::Other,
    }
}

/// The category of an error of the operating system.
pub fn io_error_to_category(kind: IoErrorKind) -> (r: ErrorCategory)
    ensures
        r == category_of(kind),
{
    match kind {
        IoErrorKind::NotFound => ErrorCategory::NotFound,
        IoErrorKind::PermissionDenied => ErrorCategory::PermissionDenied,
        IoErrorKind::AlreadyExists => ErrorCategory::AlreadyExists,
        IoErrorKind::InvalidInput => ErrorCategory::InvalidInput,
        IoErrorKind::TimedOut => ErrorCategory::TimedOut,
        IoErrorKind::WouldBlock => ErrorCategory::WouldBlock,
        IoErrorKind::BrokenPipe => ErrorCategory::BrokenPipe,
        IoErrorKind::OutOfMemory => ErrorCategory::OutOfMemory,
        IoErrorKind::Unsupported => ErrorCategory::Unsupported,
        IoErrorKind::Other => ErrorCategory::Other,
    }
}

/// A failed operation: its reason, and the number that the operating system gave, if any.
#[derive(Clone, Copy, Debug, PartialEq, Eq, Structural)]
pub struct IoFailure {
    pub kind: IoErrorKind,
    pub raw_os_error: Option<i32>,
}

/// What the host answers: a value, or an error that the packet is marked with.
#[derive(Clone, Copy, Debug, PartialEq, Eq, Structural)]
pub enum Reply {
    Value(u64),
    Failed { category: ErrorCategory, errno: u16 },
}

/// The answer for a failed operation: its category, and the low 16 bits of the number of
/// the operating system, or zero.
pub open spec fn failure_reply(e: IoFailure) -> Reply {
    Reply::Failed {
        category: category_of(e.kind),
        errno: match e.raw_os_error {
            Some(n) => n as u16,
            None => 0,
        },
    }
}

/// The answer for a failed operation.
pub fn write_error_response(e: &IoFailure) -> (r: Reply)
    ensures
        r == failure_reply(*e),
{
    let errno: u16 = match e.raw_os_error {
        Some(n) => n as u16,
        None => 0,
    };
    Reply::Failed { category: io_error_to_category(e.kind), errno }
}

/// The state of a packet as its control word says.
#[derive(Clone, Copy, Debug, PartialEq, Eq, Structural)]
pub enum Control {
    /// Nothing to do.
    Idle,
    /// The device has filled the packet.
    Filled,
    /// The host has answered.
    Ready,
    /// The host has answered with an error.
    ReadyError,
}

/// A number of the operating system below 65536 reaches the device as it is.
pub proof fn errno_is_passed_on(kind: IoErrorKind, n: i32)
    requires
        0 <= n <= 0xFFFF,
    ensures
        failure_reply(IoFailure { kind, raw_os_error: Some(n) }) == (Reply::Failed {
            category: category_of(kind),
            errno: n as u16,
        }),
        n as u16 as int == n as int,
{
}

} // verus!
