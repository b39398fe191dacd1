//! Tasks that print, written out state by state.

use vstd::prelude::*;

use crate::warp::poll::{leave_word, left_word, Outcome, WarpPoll};

verus! {

/// The packet of the first message is to be handed over.
pub const WPF_INIT: u32 = 0;

/// The answer is awaited.
pub const WPF_WAIT: u32 = 1;

/// The task is over.
pub const WPF_DONE: u32 = 2;

/// The front part of the message of [`WarpPrintFuture`].
pub open spec fn print_front() -> Seq<u8> {
    seq![87, 97, 114, 112, 70, 117, 116, 117, 114, 101, 58, 32]
}

/// The back part of the message: the 32 characters from `A` on, one for each lane.
pub open spec fn print_back() -> Seq<u8> {
    Seq::new(32, |lane: int| (65 + lane) as u8)
}

/// The two parts of the message of [`WarpPrintFuture`].
pub fn print_parts() -> (r: (Vec<u8>, Vec<u8>))
    ensures
        r.0@ == print_front(),
        r.1@ == print_back(),
{
    let front: Vec<u8> = vec![87, 97, 114, 112, 70, 117, 116, 117, 114, 101, 58, 32];
    let mut back: Vec<u8> = Vec::new();
    for lane in 0..32u8
        invariant
            back@ == print_back().take(lane as int),
    {
        back.push(65 + lane);
        assert(back@ =~= print_back().take(lane + 1));
    }
    assert(front@ =~= print_front());
    assert(back@ =~= print_back());
    (front, back)
}

/// Prints one message.
pub struct WarpPrintFuture {
    /// The state.
    pub state: u32,
}

impl WarpPrintFuture {
    /// The state is one of the three.
    pub open spec fn wf(&self) -> bool {
        self.state <= WPF_DONE
    }

    /// A task that has done nothing yet.
    pub fn new() -> (r: WarpPrintFuture)
        ensures
            r.wf(),
            r.state == WPF_INIT,
    {
        WarpPrintFuture { state: WPF_INIT }
    }

    /// Polls the task.
    pub fn poll_warp(&mut self, outcome: Outcome) -> (r: WarpPoll)
        requires
            old(self).wf(),
        ensures
            final(self).wf(),
            old(self).state == WPF_INIT ==> {
                &&& r == WarpPoll::Pending
                &&& final(self).state == if outcome == Outcome::Submitted {
                    WPF_WAIT
                } else {
                    WPF_INIT
                }
            },
            old(self).state == WPF_WAIT ==> if outcome is Replied {
                final(self).state == WPF_DONE && r == WarpPoll::Ready(true)
            } else {
                final(self).state == WPF_WAIT && r == WarpPoll::Pending
            },
            old(self).state == WPF_DONE ==> final(self).state == WPF_DONE && r == WarpPoll::Ready(
                true,
            ),
    {
        if self.state == WPF_INIT {
            if outcome == Outcome::Submitted {
                self.state = WPF_WAIT;
            }
            WarpPoll::Pending
        } else if self.state == WPF_WAIT {
            match outcome {
                Outcome::Replied(_) => {
                    self.state = WPF_DONE;
                    WarpPoll::Ready(true)
                },
                _ => WarpPoll::Pending,
            }
        } else {
            WarpPoll::Ready(true)
        }
    }
}

/// The state in which three messages have been printed.
pub const WMP_DONE: u32 = 6;

/// The two parts of each of the three messages of [`WarpMultiPrintFuture`].
pub open spec fn multi_parts(call: int) -> (Seq<char>, Seq<char>) {
    if call == 0 {
        ("WarpMulti[1/3]: "@, "HELLO_FROM_32_LANES!!"@)
    } else if call == 1 {
        ("WarpMulti[2/3]: "@, "SECOND_CALL_WORKING!"@)
    } else {
        ("WarpMulti[3/3]: "@, "PIPELINE_COMPLETE!!"@)
    }
}

/// The two parts of a message.
pub fn message_parts(call: u32) -> (r: (&'static str, &'static str))
    ensures
        r.0@ == multi_parts(call as int).0,
        r.1@ == multi_parts(call as int).1,
{
    match call {
        0 => ("WarpMulti[1/3]: ", "HELLO_FROM_32_LANES!!"),
        1 => ("WarpMulti[2/3]: ", "SECOND_CALL_WORKING!"),
        _ => ("WarpMulti[3/3]: ", "PIPELINE_COMPLETE!!"),
    }
}

/// Both parts of every message can be written by the lanes in one go, and the message
/// fits into a packet.
pub proof fn messages_fit_the_lanes(call: int)
    ensures
        multi_parts(call).0.len() <= 32,
        multi_parts(call).1.len() <= 32,
        multi_parts(call).0.len() + multi_parts(call).1.len() <= 56,
        print_front().len() <= 32,
        print_back().len() <= 32,
        print_front().len() + print_back().len() <= 56,
{
    reveal_strlit("WarpMulti[1/3]: ");
    reveal_strlit("HELLO_FROM_32_LANES!!");
    reveal_strlit("WarpMulti[2/3]: ");
    reveal_strlit("SECOND_CALL_WORKING!");
    reveal_strlit("WarpMulti[3/3]: ");
    reveal_strlit("PIPELINE_COMPLETE!!");
}

/// Prints three messages, one after the other. The even states hand over a packet, the
/// odd ones wait for its answer.
pub struct WarpMultiPrintFuture {
    /// The state.
    pub state: u32,
    /// The number of answers.
    pub calls_completed: u32,
}

/// Hands over a packet; the state moves on if that went well.
pub fn warp_multi_init_hostcall(state: &mut u32, next_state: u32, outcome: Outcome) -> (r: WarpPoll)
    ensures
        r == WarpPoll::Pending,
        *final(state) == if outcome == Outcome::Submitted {
            next_state
        } else {
            *old(state)
        },
{
    if outcome == Outcome::Submitted {
        *state = next_state;
    }
    WarpPoll::Pending
}

/// Waits for an answer; the state moves on, and the answer is counted, once it is there.
pub fn warp_multi_wait_hostcall(
    state: &mut u32,
    calls_completed: &mut u32,
    next_state: u32,
    outcome: Outcome,
) -> (r: WarpPoll)
    requires
        *old(calls_completed) < u32::MAX,
    ensures
        outcome is Replied ==> {
            &&& *final(state) == next_state
            &&& *final(calls_completed) == *old(calls_completed) + 1
            &&& r == if next_state == WMP_DONE {
                WarpPoll::Ready(true)
            } else {
                WarpPoll::Pending
            }
        },
        !(outcome is Replied) ==> {
            &&& *final(state) == *old(state)
            &&& *final(calls_completed) == *old(calls_completed)
            &&& r == WarpPoll::Pending
        },
{
    match outcome {
        Outcome::Replied(_) => {
            *calls_completed = *calls_completed + 1;
            *state = next_state;
            if next_state == WMP_DONE {
                return WarpPoll::Ready(true);
            }
            WarpPoll::Pending
        },
        _ => WarpPoll::Pending,
    }
}

impl WarpMultiPrintFuture {
    /// The state is one of the seven, and tells how many answers there were.
    pub open spec fn wf(&self) -> bool {
        self.state <= WMP_DONE && self.calls_completed == self.state / 2
    }

    /// A task that has done nothing yet.
    pub fn new() -> (r: WarpMultiPrintFuture)
        ensures
            r.wf(),
            r.state == 0,
    {
        WarpMultiPrintFuture { state: 0, calls_completed: 0 }
    }

    /// The message that the task hands over in its state, by its number.
    pub open spec fn message(&self) -> Option<int> {
        if self.state < WMP_DONE && self.state % 2 == 0 {
            Some(self.state as int / 2)
        } else {
            None
        }
    }

    /// The number of the message that the task hands over in its state.
    pub fn current_message(&self) -> (r: Option<u32>)
        ensures
            match r {
                Some(call) => self.message() == Some(call as int),
                None => self.message() is None,
            },
    {
        if self.state < WMP_DONE && self.state % 2 == 0 {
            Some(self.state / 2)
        } else {
            None
        }
    }

    /// The poll moves the task on: a handed-over packet in a state that hands one over, an
    /// answer in a state that waits.
    pub open spec fn moves(&self, outcome: Outcome) -> bool {
        &&& self.state < WMP_DONE
        &&& if self.state % 2 == 0 {
            outcome == Outcome::Submitted
        } else {
            outcome is Replied
        }
    }

    /// Polls the task.
    pub fn poll_warp(&mut self, outcome: Outcome) -> (r: WarpPoll)
        requires
            old(self).wf(),
        ensures
            final(self).wf(),
            final(self).state == if old(self).moves(outcome) {
                old(self).state + 1
            } else {
                old(self).state as int
            },
            r == if final(self).state == WMP_DONE {
                WarpPoll::Ready(true)
            } else {
                WarpPoll::Pending
            },
    {
        let state: u32 = self.state;
        if state == WMP_DONE {
            WarpPoll::Ready(true)
        } else if state % 2 == 0 {
            warp_multi_init_hostcall(&mut self.state, state + 1, outcome)
        } else {
            warp_multi_wait_hostcall(
                &mut self.state,
                &mut self.calls_completed,
                state + 1,
                outcome,
            )
        }
    }
}

/// What the kernel leaves when its task, a [`WarpPrintFuture`], has ended.
pub fn warp_future_print_test(ok: bool, lane: u32, result: &mut u32)
    ensures
        *final(result) == left_word(ok, lane, *old(result)),
{
    leave_word(ok, lane, result);
}

/// What the kernel leaves when its task, a [`WarpMultiPrintFuture`], has ended.
pub fn warp_future_multi_print_test(ok: bool, lane: u32, result: &mut u32)
    ensures
        *final(result) == left_word(ok, lane, *old(result)),
{
    leave_word(ok, lane, result);
}

/// When the task is over, three messages have been answered.
pub proof fn three_messages_are_answered(f: WarpMultiPrintFuture)
    requires
        f.wf(),
        f.state == WMP_DONE,
    ensures
        f.calls_completed == 3,
{
}

} // verus!
