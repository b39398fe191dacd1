//! The buffer that the device and the host share.
//!
//! Packets hang together in two linked lists, one of free and one of ready packets.
//! A link carries a tag besides the packet's number, which device code changes with
//! every push and pop so that a stale link is noticed.

use vstd::prelude::*;

use crate::hostcall::protocol::Control;

verus! {

/// The lanes of a warp, as the header states it.
pub const WARP_SIZE: u32 = 32;

/// The bytes of a packet's payload.
pub const PAYLOAD_BYTES: usize = 64;

/// The sideband space of a buffer that does not ask for another.
pub const DEFAULT_SIDEBAND_SIZE: usize = 1048576;

/// A link to a packet, or to none.
#[derive(Clone, Copy, Debug, PartialEq, Eq, Structural)]
pub enum Link {
    Null,
    To { tag: u64, index: u16 },
}

/// A packet.
pub struct Packet {
    pub next: Link,
    pub control: Control,
    pub service: u32,
    pub payload: Vec<u8>,
}

/// The shared buffer, with its sideband space for bulk data.
pub struct HostcallBuffer {
    pub free_stack: Link,
    pub ready_stack: Link,
    pub doorbell: u64,
    pub shutdown: u32,
    pub num_packets: u16,
    pub warp_size: u32,
    pub packets: Vec<Packet>,
    pub sideband_capacity: u64,
    pub sideband: Vec<u8>,
}

/// Packet `i` of a new buffer links to the next one, and the last to none.
pub open spec fn initial_link(i: int, n: int) -> Link {
    if i + 1 < n {
        Link::To { tag: 0, index: (i + 1) as u16 }
    } else {
        Link::Null
    }
}

impl HostcallBuffer {
    /// There is a packet for every number, each with its payload.
    pub open spec fn wf(&self) -> bool {
        &&& self.packets@.len() == self.num_packets
        &&& forall|i: int|
            0 <= i < self.packets@.len() ==> (#[trigger] self.packets@[i]).payload@.len()
                == PAYLOAD_BYTES
        &&& self.sideband@.len() == self.sideband_capacity
    }

    /// A buffer that nothing has been put into: all packets free, none ready.
    pub open spec fn is_initial(&self, num_packets: u16, sideband_size: usize) -> bool {
        &&& self.wf()
        &&& self.num_packets == num_packets
        &&& self.warp_size == WARP_SIZE
        &&& self.free_stack == (Link::To { tag: 0, index: 0 })
        &&& self.ready_stack == Link::Null
        &&& self.doorbell == 0
        &&& self.shutdown == 0
        &&& forall|i: int|
            0 <= i < num_packets ==> (#[trigger] self.packets@[i]).next == initial_link(
                i,
                num_packets as int,
            ) && self.packets@[i].control == Control::Idle && self.packets@[i].service == 0
                && self.packets@[i].payload@ == Seq::new(64, |j: int| 0u8)
        &&& self.sideband_capacity == sideband_size
        &&& self.sideband@ == Seq::new(sideband_size as nat, |j: int| 0u8)
    }

    /// A new buffer with the usual sideband space.
    pub fn new(num_packets: u16) -> (r: HostcallBuffer)
        ensures
            r.is_initial(num_packets, DEFAULT_SIDEBAND_SIZE),
    {
        HostcallBuffer::new_with_sideband(num_packets, DEFAULT_SIDEBAND_SIZE)
    }

    /// A new buffer.
    pub fn new_with_sideband(num_packets: u16, sideband_data_size: usize) -> (r: HostcallBuffer)
        ensures
            r.is_initial(num_packets, sideband_data_size),
    {
        let mut packets: Vec<Packet> = Vec::new();
        for i in 0..num_packets
            invariant
                packets@.len() == i,
                forall|j: int|
                    0 <= j < i ==> (#[trigger] packets@[j]).next == initial_link(
                        j,
                        num_packets as int,
                    ) && packets@[j].control == Control::Idle && packets@[j].service == 0
                        && packets@[j].payload@ == Seq::new(64, |j: int| 0u8),
        {
            let next = if i + 1 < num_packets {
                Link::To { tag: 0, index: i + 1 }
            } else {
                Link::Null
            };
            let payload: Vec<u8> = vec![0;PAYLOAD_BYTES];
            assert(payload@ =~= Seq::new(64, |j: int| 0u8));
            packets.push(Packet { next, control: Control::Idle, service: 0, payload });
        }
        let sideband: Vec<u8> = vec![0;sideband_data_size];
        assert(sideband@ =~= Seq::new(sideband_data_size as nat, |j: int| 0u8));
        HostcallBuffer {
            free_stack: Link::To { tag: 0, index: 0 },
            ready_stack: Link::Null,
            doorbell: 0,
            shutdown: 0,
            num_packets,
            warp_size: WARP_SIZE,
            packets,
            sideband_capacity: sideband_data_size as u64,
            sideband,
        }
    }

    /// Tells the listener to stop.
    pub fn signal_shutdown(&mut self)
        ensures
            final(self).shutdown == 1,
            final(self).free_stack == old(self).free_stack,
            final(self).ready_stack == old(self).ready_stack,
            final(self).doorbell == old(self).doorbell,
            final(self).num_packets == old(self).num_packets,
            final(self).warp_size == old(self).warp_size,
            final(self).packets == old(self).packets,
            final(self).sideband_capacity == old(self).sideband_capacity,
            final(self).sideband == old(self).sideband,
    {
        self.shutdown = 1;
    }
}

/// The numbers of the packets that hang on a link, following at most `fuel` links.
pub open spec fn chain(links: Seq<Link>, head: Link, fuel: nat) -> Seq<u16>
    decreases fuel,
{
    match head {
        Link::To { index, .. } => if fuel > 0 && index < links.len() {
            seq![index] + chain(links, links[index as int], (fuel - 1) as nat)
        } else {
            Seq::empty()
        },
        Link::Null => Seq::empty(),
    }
}

/// The links of a buffer's packets.
pub open spec fn links_of(packets: Seq<Packet>) -> Seq<Link> {
    Seq::new(packets.len(), |i: int| packets[i].next)
}

/// The free list of a new buffer holds every packet once, in order, and ends after the
/// last.
pub proof fn free_list_holds_every_packet(buffer: HostcallBuffer, n: u16, size: usize, fuel: nat)
    requires
        buffer.is_initial(n, size),
        fuel >= n,
    ensures
        chain(links_of(buffer.packets@), buffer.free_stack, fuel) == Seq::new(
            n as nat,
            |i: int| i as u16,
        ),
{
    let links = links_of(buffer.packets@);
    if n > 0 {
        lemma_chain(links, n as int, 0, fuel);
        assert(chain(links, buffer.free_stack, fuel) =~= Seq::new(n as nat, |i: int| i as u16));
    } else {
        assert(chain(links, buffer.free_stack, fuel) =~= Seq::new(n as nat, |i: int| i as u16));
    }
}

proof fn lemma_chain(links: Seq<Link>, n: int, start: int, fuel: nat)
    requires
        0 <= start < n <= u16::MAX,
        links.len() == n,
        forall|i: int| 0 <= i < n ==> #[trigger] links[i] == initial_link(i, n),
        fuel >= n - start,
    ensures
        chain(links, Link::To { tag: 0, index: start as u16 }, fuel) == Seq::new(
            (n - start) as nat,
            |i: int| (start + i) as u16,
        ),
    decreases n - start,
{
    let head = Link::To { tag: 0, index: start as u16 };
    let rest = links[start];
    if start + 1 < n {
        lemma_chain(links, n, start + 1, (fuel - 1) as nat);
    } else {
        assert(chain(links, rest, (fuel - 1) as nat) =~= Seq::<u16>::empty());
    }
    assert(chain(links, head, fuel) == seq![start as u16] + chain(links, rest, (fuel - 1) as nat));
    assert(chain(links, head, fuel) =~= Seq::new((n - start) as nat, |i: int| (start + i) as u16));
}

/// A step of setting up a buffer in memory that both sides see.
#[derive(Clone, Copy, Debug, PartialEq, Eq, Structural)]
pub enum SetupStep {
    AllocateBuffer,
    MapBuffer,
    AllocateSideband,
    MapSideband,
    Initialize,
}

/// Why a buffer could not be set up.
#[derive(Clone, Copy, Debug, PartialEq, Eq, Structural)]
pub enum SetupError {
    CudaAlloc,
    CudaGetDevPtr,
}

/// A hostcall buffer that could not be set up, with the driver's words.
#[derive(Debug)]
pub enum HostcallError {
    /// Memory could not be allocated.
    CudaAlloc(String),
    /// Memory could not be mapped.
    CudaGetDevPtr(String),
}

impl HostcallError {
    /// What the error says.
    pub open spec fn text(&self) -> Seq<char> {
        match self {
            HostcallError::CudaAlloc(r) => "cuMemHostAlloc failed: "@ + r@,
            HostcallError::CudaGetDevPtr(r) => "cuMemHostGetDevicePointer_v2 failed: "@ + r@,
        }
    }

    /// What the error says.
    pub fn message(&self) -> (r: String)
        ensures
            r@ == self.text(),
    {
        match self {
            HostcallError::CudaAlloc(r) => "cuMemHostAlloc failed: ".to_string().concat(
                r.as_str(),
            ),
            HostcallError::CudaGetDevPtr(r) => "cuMemHostGetDevicePointer_v2 failed: ".to_string().concat(
                r.as_str(),
            ),
        }
    }
}

/// The error for a failed step, with the driver's words.
pub fn setup_error(error: SetupError, reason: String) -> (r: HostcallError)
    ensures
        r == match error {
            SetupError::CudaAlloc => HostcallError::CudaAlloc(reason),
            SetupError::CudaGetDevPtr => HostcallError::CudaGetDevPtr(reason),
        },
{
    match error {
        SetupError::CudaAlloc => HostcallError::CudaAlloc(reason),
        SetupError::CudaGetDevPtr => HostcallError::CudaGetDevPtr(reason),
    }
}

/// What follows a step.
#[derive(Clone, Copy, Debug, PartialEq, Eq, Structural)]
pub enum SetupNext {
    /// Take the next step.
    Step(SetupStep),
    /// Give back what was allocated, and report the error.
    Fail { free_sideband: bool, free_buffer: bool, error: SetupError },
    /// The buffer is ready.
    Done,
}

/// What follows a step that succeeded or failed.
pub open spec fn setup_after(step: SetupStep, ok: bool) -> SetupNext {
    match (step, ok) {
        (SetupStep::AllocateBuffer, true) => SetupNext::Step(SetupStep::MapBuffer),
        (SetupStep::AllocateBuffer, false) => SetupNext::Fail {
            free_sideband: false,
            free_buffer: false,
            error: SetupError::CudaAlloc,
        },
        (SetupStep::MapBuffer, true) => SetupNext::Step(SetupStep::AllocateSideband),
        (SetupStep::MapBuffer, false) => SetupNext::Fail {
            free_sideband: false,
            free_buffer: true,
            error: SetupError::CudaGetDevPtr,
        },
        (SetupStep::AllocateSideband, true) => SetupNext::Step(SetupStep::MapSideband),
        (SetupStep::AllocateSideband, false) => SetupNext::Fail {
            free_sideband: false,
            free_buffer: true,
            error: SetupError::CudaAlloc,
        },
        (SetupStep::MapSideband, true) => SetupNext::Step(SetupStep::Initialize),
        (SetupStep::MapSideband, false) => SetupNext::Fail {
            free_sideband: true,
            free_buffer: true,
            error: SetupError::CudaGetDevPtr,
        },
        (SetupStep::Initialize, _) => SetupNext::Done,
    }
}

/// Decides what follows a step.
pub fn next_setup(step: SetupStep, ok: bool) -> (r: SetupNext)
    ensures
        r == setup_after(step, ok),
{
    match step {
        SetupStep::AllocateBuffer => if ok {
            SetupNext::Step(SetupStep::MapBuffer)
        } else {
            SetupNext::Fail {
                free_sideband: false,
                free_buffer: false,
                error: SetupError::CudaAlloc,
            }
        },
        SetupStep::MapBuffer => if ok {
            SetupNext::Step(SetupStep::AllocateSideband)
        } else {
            SetupNext::Fail {
                free_sideband: false,
                free_buffer: true,
                error: SetupError::CudaGetDevPtr,
            }
        },
        SetupStep::AllocateSideband => if ok {
            SetupNext::Step(SetupStep::MapSideband)
        } else {
            SetupNext::Fail {
                free_sideband: false,
                free_buffer: true,
                error: SetupError::CudaAlloc,
            }
        },
        SetupStep::MapSideband => if ok {
            SetupNext::Step(SetupStep::Initialize)
        } else {
            SetupNext::Fail {
                free_sideband: true,
                free_buffer: true,
                error: SetupError::CudaGetDevPtr,
            }
        },
        SetupStep::Initialize => SetupNext::Done,
    }
}

/// Whether the buffer, or the sideband space, is allocated before a step.
pub open spec fn holds(step: SetupStep) -> (bool, bool) {
    match step {
        SetupStep::AllocateBuffer => (false, false),
        SetupStep::MapBuffer | SetupStep::AllocateSideband => (true, false),
        SetupStep::MapSideband | SetupStep::Initialize => (true, true),
    }
}

/// A set-up that fails gives back exactly what it holds.
pub proof fn failed_setup_leaks_nothing(step: SetupStep)
    ensures
        setup_after(step, false) matches SetupNext::Fail { free_sideband, free_buffer, .. } ==> (
            free_buffer,
            free_sideband,
        ) == holds(step),
        setup_after(step, true) matches SetupNext::Step(next) ==> {
            &&& (step == SetupStep::AllocateBuffer) ==> holds(next).0
            &&& (step == SetupStep::AllocateSideband) ==> holds(next).1
        },
{
}

} // verus!
