//! The listener: it watches the doorbell and takes packets off the ready list.

use vstd::prelude::*;

use crate::bytes::slot_at;
use crate::hostcall::buffer::{chain, links_of, Link, Packet};
use crate::hostcall::protocol::{Control, Service, ServiceCodes};
use crate::hostcall::requests::{inline_bytes, printed};

verus! {

/// How many idle polls the listener spins through before it sleeps between them.
pub const SPIN_PHASE_LIMIT: u32 = 1000;

/// How long a sleep is, in microseconds.
pub const SLEEP_MICROS: u64 = 100;

/// What the listener remembers between polls.
#[derive(Clone, Copy, Debug, PartialEq, Eq, Structural)]
pub struct Listener {
    pub last_doorbell: u64,
    pub idle_spins: u32,
}

/// What the listener does next.
#[derive(Clone, Copy, Debug, PartialEq, Eq, Structural)]
pub enum Poll {
    /// The buffer was shut down.
    Stop,
    /// Poll again at once.
    Spin,
    /// Poll again after a sleep.
    Sleep,
    /// Take the packets off the ready list.
    Drain,
}

/// What a poll comes to.
pub open spec fn poll_of(l: Listener, shutdown: u32, doorbell: u64) -> (Listener, Poll) {
    if shutdown != 0 {
        (l, Poll::Stop)
    } else if doorbell == l.last_doorbell {
        let spins = if l.idle_spins < u32::MAX {
            (l.idle_spins + 1) as u32
        } else {
            u32::MAX
        };
        (
            Listener { idle_spins: spins, ..l },
            if spins <= SPIN_PHASE_LIMIT {
                Poll::Spin
            } else {
                Poll::Sleep
            },
        )
    } else {
        (Listener { last_doorbell: doorbell, idle_spins: 0 }, Poll::Drain)
    }
}

impl Listener {
    pub fn new() -> (r: Listener)
        ensures
            r == (Listener { last_doorbell: 0, idle_spins: 0 }),
    {
        Listener { last_doorbell: 0, idle_spins: 0 }
    }

    /// Decides what to do about what a poll saw. A listener that has been idle for longer
    /// than it can count goes on sleeping.
    pub fn poll(&mut self, shutdown: u32, doorbell: u64) -> (r: Poll)
        ensures
            (*final(self), r) == poll_of(*old(self), shutdown, doorbell),
    {
        if shutdown != 0 {
            return Poll::Stop;
        }
        if doorbell == self.last_doorbell {
            self.idle_spins = self.idle_spins.saturating_add(1);
            return if self.idle_spins <= SPIN_PHASE_LIMIT {
                Poll::Spin
            } else {
                Poll::Sleep
            };
        }
        self.last_doorbell = doorbell;
        self.idle_spins = 0;
        Poll::Drain
    }
}

/// What is done with a packet.
#[derive(Clone, Copy, Debug, PartialEq, Eq, Structural)]
pub enum Dispatch {
    /// The packet is not filled: leave it alone.
    Skip,
    /// Answer it at once.
    Inline(Service),
    /// Hand it to the thread that may block.
    Offload(Service),
    /// Nobody knows the service: answer with an error.
    Reject,
}

/// Services that cannot block.
pub open spec fn is_fast(s: Service) -> bool {
    s == Service::Nop || s == Service::Print || s == Service::Time || s == Service::Panic || s
        == Service::BulkPrint
}

/// What is done with a packet that asks for the service with a number.
pub open spec fn dispatch_of(codes: ServiceCodes, control: Control, code: u32) -> Dispatch {
    if control != Control::Filled {
        Dispatch::Skip
    } else if exists|s: Service| #[trigger] codes.code_of(s) == code {
        let s = choose|s: Service| #[trigger] codes.code_of(s) == code;
        if is_fast(s) {
            Dispatch::Inline(s)
        } else {
            Dispatch::Offload(s)
        }
    } else {
        Dispatch::Reject
    }
}

/// Decides what is done with a packet.
pub fn dispatch(codes: &ServiceCodes, control: Control, code: u32) -> (r: Dispatch)
    requires
        codes.distinct(),
    ensures
        r == dispatch_of(*codes, control, code),
{
    match control {
        Control::Filled => match codes.service(code) {
            None => Dispatch::Reject,
            Some(s) => match s {
                Service::Nop | Service::Print | Service::Time | Service::Panic
                | Service::BulkPrint => Dispatch::Inline(s),
                _ => Dispatch::Offload(s),
            },
        },
        _ => Dispatch::Skip,
    }
}

/// The ready list ends: following its links comes to an end within as many steps as there
/// are packets, and never leaves the buffer.
pub open spec fn list_ends(links: Seq<Link>, head: Link, fuel: nat) -> bool
    decreases fuel,
{
    match head {
        Link::Null => true,
        Link::To { index, .. } => fuel > 0 && index < links.len() && list_ends(
            links,
            links[index as int],
            (fuel - 1) as nat,
        ),
    }
}

/// Whether the ready list ends.
pub fn well_linked(packets: &Vec<Packet>, head: Link) -> (r: bool)
    ensures
        r == list_ends(links_of(packets@), head, packets@.len()),
{
    let ghost links = links_of(packets@);
    let mut current = head;
    let mut left: usize = packets.len();
    loop
        invariant
            links == links_of(packets@),
            left <= packets@.len(),
            list_ends(links, head, packets@.len()) == list_ends(links, current, left as nat),
        decreases left,
    {
        match current {
            Link::Null => {
                return true;
            },
            Link::To { tag, index } => {
                if left == 0 || index as usize >= packets.len() {
                    return false;
                }
                current = packets[index as usize].next;
                left = left - 1;
            },
        }
    }
}

/// The packets of the ready list in the order in which they are handled.
pub fn ready_packets(packets: &Vec<Packet>, head: Link) -> (r: Vec<u16>)
    requires
        list_ends(links_of(packets@), head, packets@.len()),
    ensures
        r@ == chain(links_of(packets@), head, packets@.len()),
{
    let ghost links = links_of(packets@);
    let mut r: Vec<u16> = Vec::new();
    let mut current = head;
    let ghost mut fuel: nat = packets@.len();
    assert(r@ + chain(links, current, fuel) =~= chain(links, head, packets@.len()));
    loop
        invariant
            links == links_of(packets@),
            list_ends(links, current, fuel),
            r@ + chain(links, current, fuel) == chain(links, head, packets@.len()),
        decreases fuel,
    {
        match current {
            Link::Null => {
                assert(chain(links, current, fuel) =~= Seq::<u16>::empty());
                assert(r@ =~= chain(links, head, packets@.len()));
                return r;
            },
            Link::To { tag, index } => {
                let ghost before = r@;
                r.push(index);
                current = packets[index as usize].next;
                proof {
                    fuel = (fuel - 1) as nat;
                    assert(r@ + chain(links, current, fuel) =~= before + (seq![index] + chain(
                        links,
                        current,
                        fuel,
                    )));
                }
            },
        }
    }
}

/// The control word of an answered packet.
pub open spec fn answered(has_error: bool) -> Control {
    if has_error {
        Control::ReadyError
    } else {
        Control::Ready
    }
}

/// The control word of an answered packet.
pub fn answer_control(has_error: bool) -> (r: Control)
    ensures
        r == answered(has_error),
{
    if has_error {
        Control::ReadyError
    } else {
        Control::Ready
    }
}

/// Every filled packet is dealt with: it is answered, handed on, or refused.
pub proof fn no_filled_packet_is_skipped(codes: ServiceCodes, code: u32)
    requires
        codes.distinct(),
    ensures
        !(dispatch_of(codes, Control::Filled, code) is Skip),
        dispatch_of(codes, Control::Filled, code) is Reject <==> forall|s: Service| #[trigger]
            codes.code_of(s) != code,
{
}

/// A packet whose number is that of a service is dispatched as that service.
pub proof fn services_are_recognized(codes: ServiceCodes, s: Service)
    requires
        codes.distinct(),
    ensures
        dispatch_of(codes, Control::Filled, codes.code_of(s)) == if is_fast(s) {
            Dispatch::Inline(s)
        } else {
            Dispatch::Offload(s)
        },
{
    let t = choose|t: Service| #[trigger] codes.code_of(t) == codes.code_of(s);
    assert(codes.code_of(t) == codes.code_of(s));
}

/// The listener sleeps only after it has spun for long enough without a new doorbell, and
/// a new doorbell starts the spinning anew.
pub proof fn sleeping_needs_idling(l: Listener, doorbell: u64)
    ensures
        poll_of(l, 0, doorbell).1 == Poll::Sleep ==> doorbell == l.last_doorbell && l.idle_spins
            >= SPIN_PHASE_LIMIT,
        doorbell != l.last_doorbell ==> poll_of(l, 0, doorbell).0.idle_spins == 0,
{
}

/// The listener stops as soon as a poll sees the shutdown, before it looks at any packet, and
/// only then.
pub proof fn only_a_shutdown_stops(l: Listener, shutdown: u32, doorbell: u64)
    ensures
        poll_of(l, shutdown, doorbell).1 == Poll::Stop <==> shutdown != 0,
        shutdown != 0 ==> poll_of(l, shutdown, doorbell).0 == l,
{
}

/// What is done with the packets of a list, in order: each packet's number and its dispatch.
pub open spec fn plan_of(codes: ServiceCodes, packets: Seq<Packet>, order: Seq<u16>) -> Seq<
    (u16, Dispatch),
> {
    Seq::new(
        order.len(),
        |k: int|
            (
                order[k],
                dispatch_of(
                    codes,
                    packets[order[k] as int].control,
                    packets[order[k] as int].service,
                ),
            ),
    )
}

/// Decides what is done with every packet of the ready list.
pub fn drain(codes: &ServiceCodes, packets: &Vec<Packet>, head: Link) -> (plan: Vec<
    (u16, Dispatch),
>)
    requires
        codes.distinct(),
        list_ends(links_of(packets@), head, packets@.len()),
    ensures
        plan@ == plan_of(
            *codes,
            packets@,
            chain(links_of(packets@), head, packets@.len()),
        ),
{
    let order: Vec<u16> = ready_packets(packets, head);
    proof {
        lemma_chain_inside(links_of(packets@), head, packets@.len());
    }
    let mut plan: Vec<(u16, Dispatch)> = Vec::new();
    for k in 0..order.len()
        invariant
            codes.distinct(),
            forall|j: int| 0 <= j < order@.len() ==> (#[trigger] order@[j]) < packets@.len(),
            plan@ == plan_of(*codes, packets@, order@).take(k as int),
    {
        let index: u16 = order[k];
        let packet = &packets[index as usize];
        plan.push((index, dispatch(codes, packet.control, packet.service)));
    }
    assert(plan@ =~= plan_of(*codes, packets@, order@));
    plan
}

/// The control word of a packet after it was dealt with. `has_error` tells whether carrying
/// it out failed, which can happen to a bulk print and to what is handed on.
pub open spec fn control_after(control: Control, dispatch: Dispatch, has_error: bool) -> Control {
    match dispatch {
        Dispatch::Skip => control,
        Dispatch::Reject => answered(true),
        Dispatch::Inline(s) => answered(s == Service::BulkPrint && has_error),
        Dispatch::Offload(_) => answered(has_error),
    }
}

/// The answer to a packet that was dealt with, or none if it was left alone.
pub fn answer_for(dispatch: Dispatch, has_error: bool) -> (r: Option<Control>)
    ensures
        r == if dispatch is Skip {
            None::<Control>
        } else {
            Some(control_after(Control::Filled, dispatch, has_error))
        },
{
    match dispatch {
        Dispatch::Skip => None,
        Dispatch::Reject => Some(answer_control(true)),
        Dispatch::Inline(s) => match s {
            Service::BulkPrint => Some(answer_control(has_error)),
            _ => Some(answer_control(false)),
        },
        Dispatch::Offload(_) => Some(answer_control(has_error)),
    }
}

/// The control words of all packets after those of a plan were dealt with, one by one;
/// `errors` tells which of them failed.
pub open spec fn controls_after(
    controls: Seq<Control>,
    plan: Seq<(u16, Dispatch)>,
    errors: Seq<bool>,
) -> Seq<Control>
    decreases plan.len(),
{
    if plan.len() == 0 {
        controls
    } else {
        let before = controls_after(controls, plan.drop_last(), errors);
        let (index, dispatch) = plan.last();
        before.update(
            index as int,
            control_after(before[index as int], dispatch, errors[plan.len() - 1]),
        )
    }
}

/// How many packets of a plan with this number are answered.
pub open spec fn answers_to(plan: Seq<(u16, Dispatch)>, index: u16) -> nat
    decreases plan.len(),
{
    if plan.len() == 0 {
        0
    } else {
        answers_to(plan.drop_last(), index) + if plan.last().0 == index && !(plan.last().1 is Skip) {
            1nat
        } else {
            0nat
        }
    }
}

/// The control words of packets.
pub open spec fn controls_of(packets: Seq<Packet>) -> Seq<Control> {
    Seq::new(packets.len(), |i: int| packets[i].control)
}

/// No number stands twice.
pub open spec fn all_distinct(order: Seq<u16>) -> bool {
    forall|a: int, b: int| 0 <= a < b < order.len() ==> #[trigger] order[a] != #[trigger] order[b]
}

proof fn lemma_chain_inside(links: Seq<Link>, head: Link, fuel: nat)
    ensures
        forall|k: int|
            0 <= k < chain(links, head, fuel).len() ==> (#[trigger] chain(links, head, fuel)[k])
                < links.len(),
    decreases fuel,
{
    match head {
        Link::To { index, .. } => {
            if fuel > 0 && index < links.len() {
                let rest = links[index as int];
                lemma_chain_inside(links, rest, (fuel - 1) as nat);
                let c = chain(links, head, fuel);
                assert forall|k: int| 0 <= k < c.len() implies (#[trigger] c[k]) < links.len() by {
                    if k > 0 {
                        assert(c[k] == chain(links, rest, (fuel - 1) as nat)[k - 1]);
                    }
                }
            }
        },
        Link::Null => {},
    }
}

/// From a packet of a list on, the list goes on as it would from that packet.
proof fn lemma_chain_from(links: Seq<Link>, head: Link, fuel: nat, a: int)
    requires
        list_ends(links, head, fuel),
        0 <= a < chain(links, head, fuel).len(),
    ensures
        ({
            let c = chain(links, head, fuel);
            let from = Link::To { tag: 0, index: c[a] };
            &&& a < fuel
            &&& list_ends(links, from, (fuel - a) as nat)
            &&& chain(links, from, (fuel - a) as nat) == c.skip(a)
        }),
    decreases fuel,
{
    let c = chain(links, head, fuel);
    match head {
        Link::To { index, .. } => {
            let rest = links[index as int];
            let tail = chain(links, rest, (fuel - 1) as nat);
            assert(c == seq![index] + tail);
            if a == 0 {
                assert(c.skip(0) =~= c);
            } else {
                lemma_chain_from(links, rest, (fuel - 1) as nat, a - 1);
                assert(c[a] == tail[a - 1]);
                assert(c.skip(a) =~= tail.skip(a - 1));
            }
        },
        Link::Null => {},
    }
}

/// Where a list ends does not depend on how far it may be followed.
proof fn lemma_any_fuel(links: Seq<Link>, head: Link, f: nat, g: nat)
    requires
        list_ends(links, head, f),
        list_ends(links, head, g),
    ensures
        chain(links, head, f) == chain(links, head, g),
    decreases f,
{
    match head {
        Link::To { index, .. } => {
            lemma_any_fuel(links, links[index as int], (f - 1) as nat, (g - 1) as nat);
        },
        Link::Null => {},
    }
}

/// A list that ends holds no packet twice.
pub proof fn ready_packets_are_distinct(links: Seq<Link>, head: Link, fuel: nat)
    requires
        list_ends(links, head, fuel),
    ensures
        all_distinct(chain(links, head, fuel)),
{
    let c = chain(links, head, fuel);
    assert forall|a: int, b: int| 0 <= a < b < c.len() implies #[trigger] c[a] != #[trigger] c[b] by {
        if c[a] == c[b] {
            lemma_chain_from(links, head, fuel, a);
            lemma_chain_from(links, head, fuel, b);
            let from = Link::To { tag: 0, index: c[a] };
            lemma_any_fuel(links, from, (fuel - a) as nat, (fuel - b) as nat);
            assert(c.skip(a).len() == c.skip(b).len());
        }
    }
}

proof fn lemma_drained(
    controls: Seq<Control>,
    plan: Seq<(u16, Dispatch)>,
    errors: Seq<bool>,
    index: u16,
)
    requires
        plan.len() <= errors.len(),
        index < controls.len(),
        forall|k: int| 0 <= k < plan.len() ==> (#[trigger] plan[k]).0 < controls.len(),
        forall|a: int, b: int|
            0 <= a < b < plan.len() ==> (#[trigger] plan[a]).0 != (#[trigger] plan[b]).0,
    ensures
        controls_after(controls, plan, errors).len() == controls.len(),
        (forall|k: int| 0 <= k < plan.len() ==> (#[trigger] plan[k]).0 != index) ==> {
            &&& controls_after(controls, plan, errors)[index as int] == controls[index as int]
            &&& answers_to(plan, index) == 0
        },
        forall|k: int|
            0 <= k < plan.len() && (#[trigger] plan[k]).0 == index ==> {
                &&& controls_after(controls, plan, errors)[index as int] == control_after(
                    controls[index as int],
                    plan[k].1,
                    errors[k],
                )
                &&& answers_to(plan, index) == if plan[k].1 is Skip {
                    0nat
                } else {
                    1nat
                }
            },
    decreases plan.len(),
{
    if plan.len() > 0 {
        let front = plan.drop_last();
        let last = plan[plan.len() - 1];
        assert forall|k: int| 0 <= k < front.len() implies (#[trigger] front[k]).0
            < controls.len() by {
            assert(front[k] == plan[k]);
        }
        assert forall|a: int, b: int| 0 <= a < b < front.len() implies (#[trigger] front[a]).0 != (
        #[trigger] front[b]).0 by {
            assert(front[a] == plan[a] && front[b] == plan[b]);
        }
        lemma_drained(controls, front, errors, index);
        if last.0 == index {
            assert forall|k: int| 0 <= k < front.len() implies (#[trigger] front[k]).0
                != index by {
                assert(front[k] == plan[k]);
                assert(plan[k].0 != plan[plan.len() - 1].0);
            }
        } else {
            if forall|k: int| 0 <= k < plan.len() ==> (#[trigger] plan[k]).0 != index {
                assert forall|k: int| 0 <= k < front.len() implies (#[trigger] front[k]).0
                    != index by {
                    assert(front[k] == plan[k]);
                }
            }
            assert forall|k: int| 0 <= k < plan.len() && (#[trigger] plan[k]).0 == index implies {
                &&& controls_after(controls, plan, errors)[index as int] == control_after(
                    controls[index as int],
                    plan[k].1,
                    errors[k],
                )
                &&& answers_to(plan, index) == if plan[k].1 is Skip {
                    0nat
                } else {
                    1nat
                }
            } by {
                assert(front[k] == plan[k]);
            }
        }
    }
}

/// A drained list leaves every packet as it should be. A packet that is on the list and filled
/// is answered once, at once or by the thread that may block; one that is on the list and not
/// filled, and one that is not on it, is left alone.
pub proof fn drained_packets_are_answered_once(
    codes: ServiceCodes,
    packets: Seq<Packet>,
    head: Link,
    errors: Seq<bool>,
    index: u16,
)
    requires
        codes.distinct(),
        list_ends(links_of(packets), head, packets.len()),
        errors.len() == chain(links_of(packets), head, packets.len()).len(),
        index < packets.len(),
    ensures
        ({
            let order = chain(links_of(packets), head, packets.len());
            let plan = plan_of(codes, packets, order);
            let after = controls_after(controls_of(packets), plan, errors);
            let packet = packets[index as int];
            &&& all_distinct(order)
            &&& after.len() == packets.len()
            &&& answers_to(plan, index) == if order.contains(index) && packet.control
                == Control::Filled {
                1nat
            } else {
                0nat
            }
            &&& !order.contains(index) || packet.control != Control::Filled ==> after[index as int]
                == packet.control
            &&& forall|k: int|
                0 <= k < order.len() && #[trigger] order[k] == index && packet.control
                    == Control::Filled ==> after[index as int] == control_after(
                    Control::Filled,
                    dispatch_of(codes, Control::Filled, packet.service),
                    errors[k],
                )
        }),
{
    let links = links_of(packets);
    let order = chain(links, head, packets.len());
    let plan = plan_of(codes, packets, order);
    let controls = controls_of(packets);
    let packet = packets[index as int];
    ready_packets_are_distinct(links, head, packets.len());
    lemma_chain_inside(links, head, packets.len());
    assert forall|a: int, b: int| 0 <= a < b < plan.len() implies (#[trigger] plan[a]).0 != (
    #[trigger] plan[b]).0 by {
        assert(order[a] != order[b]);
    }
    lemma_drained(controls, plan, errors, index);
    if order.contains(index) {
        let k = choose|k: int| 0 <= k < order.len() && order[k] == index;
        assert(plan[k].0 == index);
        assert forall|j: int| 0 <= j < order.len() && #[trigger] order[j] == index implies j
            == k by {}
    } else {
        assert forall|k: int| 0 <= k < plan.len() implies (#[trigger] plan[k]).0 != index by {
            assert(plan[k].0 == order[k]);
        }
    }
}

/// An answer has an error exactly if nobody knows the service, or if carrying out a bulk
/// print, a file operation or a read of standard input failed. A no-op, a print, a time and a
/// panic never fail.
pub proof fn answers_have_errors_for_a_reason(codes: ServiceCodes, s: Service, has_error: bool)
    requires
        codes.distinct(),
    ensures
        ({
            let after = control_after(
                Control::Filled,
                dispatch_of(codes, Control::Filled, codes.code_of(s)),
                has_error,
            );
            let may_fail = s != Service::Nop && s != Service::Print && s != Service::Time && s
                != Service::Panic;
            after == answered(may_fail && has_error)
        }),
        forall|code: u32|
            (forall|t: Service| #[trigger] codes.code_of(t) != code) ==> #[trigger] control_after(
                Control::Filled,
                dispatch_of(codes, Control::Filled, code),
                has_error,
            ) == Control::ReadyError,
{
    services_are_recognized(codes, s);
}

/// A service is carried out for the filled packets that ask for it, and for no others.
pub proof fn services_run_when_asked_for(
    codes: ServiceCodes,
    control: Control,
    code: u32,
    s: Service,
)
    requires
        codes.distinct(),
    ensures
        dispatch_of(codes, control, code) == Dispatch::Inline(s) <==> control == Control::Filled
            && code == codes.code_of(s) && is_fast(s),
        dispatch_of(codes, control, code) == Dispatch::Offload(s) <==> control == Control::Filled
            && code == codes.code_of(s) && !is_fast(s),
{
    if control == Control::Filled && code == codes.code_of(s) {
        services_are_recognized(codes, s);
    }
}

/// The messages that are printed for a packet.
pub open spec fn printed_for(dispatch: Dispatch, payload: Seq<u8>, sideband: Seq<u8>) -> Seq<
    Seq<u8>,
> {
    match dispatch {
        Dispatch::Inline(s) => printed(s, payload, sideband),
        _ => Seq::empty(),
    }
}

/// One message is printed for a filled packet that asks for a print, the messages of its batch
/// for one that asks for a bulk print, and nothing for any other packet.
pub proof fn only_prints_are_printed(
    codes: ServiceCodes,
    control: Control,
    code: u32,
    payload: Seq<u8>,
    sideband: Seq<u8>,
)
    requires
        codes.distinct(),
    ensures
        printed_for(dispatch_of(codes, control, code), payload, sideband) == if control
            == Control::Filled && code == codes.code_of(Service::Print) {
            seq![inline_bytes(payload, 8, slot_at(payload, 0), 56)]
        } else if control == Control::Filled && code == codes.code_of(Service::BulkPrint) {
            printed(Service::BulkPrint, payload, sideband)
        } else {
            Seq::empty()
        },
{
    services_run_when_asked_for(codes, control, code, Service::Print);
    services_run_when_asked_for(codes, control, code, Service::BulkPrint);
}

} // verus!
