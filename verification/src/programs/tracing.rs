//! Programs that leave a trace.

use vstd::prelude::*;

use crate::kernels::basic::Thread;
use crate::text::{decimal_chars, decimal_text};

verus! {

/// How important an event is.
#[derive(Clone, Copy, Debug, PartialEq, Eq, Structural)]
pub enum TraceLevel {
    Debug,
    Info,
    Warn,
}

/// An event: its level and what it says.
#[derive(Clone, Debug)]
pub struct Event {
    pub level: TraceLevel,
    pub message: String,
}

/// A thread tells of itself, at level [`TraceLevel::Info`].
pub fn trace_multithread_test(tid: u32) -> (e: Event)
    ensures
        e.level == TraceLevel::Info,
        e.message@ == "trace from T"@ + decimal_chars(tid as nat),
{
    let number = decimal_text(tid as u64);
    Event { level: TraceLevel::Info, message: "trace from T".to_string().concat(number.as_str()) }
}

/// A thread tells of itself, at level [`TraceLevel::Debug`]. The condition that the first
/// thread then asserts holds, so that nobody is stopped.
pub fn trace_assert_test(tid: u32) -> (e: Event)
    ensures
        e.level == TraceLevel::Debug,
        e.message@ == "assert test T"@ + decimal_chars(tid as nat),
{
    let number = decimal_text(tid as u64);
    Event { level: TraceLevel::Debug, message: "assert test T".to_string().concat(number.as_str()) }
}

proof fn lemma_decimal_digits(n: nat)
    ensures
        decimal_chars(n).len() >= 1,
        decimal_chars(n).last() == crate::text::digit_char((n % 10) as int),
{
}

proof fn lemma_decimal_apart(a: nat, b: nat)
    requires
        decimal_chars(a) == decimal_chars(b),
    ensures
        a == b,
    decreases a,
{
    lemma_decimal_digits(a);
    lemma_decimal_digits(b);
    assert(a % 10 == b % 10);
    if a < 10 {
        if b >= 10 {
            lemma_decimal_digits(b / 10);
        }
    } else {
        lemma_decimal_digits(a / 10);
        if b >= 10 {
            assert(decimal_chars(a).drop_last() =~= decimal_chars(a / 10));
            assert(decimal_chars(b).drop_last() =~= decimal_chars(b / 10));
            lemma_decimal_apart(a / 10, b / 10);
        }
    }
}

/// Different threads leave different events.
pub proof fn threads_are_told_apart(a: u32, b: u32)
    requires
        "trace from T"@ + decimal_chars(a as nat) == "trace from T"@ + decimal_chars(b as nat),
    ensures
        a == b,
{
    let front = "trace from T"@;
    let n = front.len() as int;
    let (x, y) = (front + decimal_chars(a as nat), front + decimal_chars(b as nat));
    assert(x.skip(n) =~= decimal_chars(a as nat));
    assert(y.skip(n) =~= decimal_chars(b as nat));
    lemma_decimal_apart(a as nat, b as nat);
}

/// What a program leaves in the flight recorder.
pub struct Recording {
    /// The events, the oldest first.
    pub events: Vec<(TraceLevel, &'static str)>,
    /// Whether the program is marked as crashed.
    pub crashed: bool,
    /// What the program prints in the end.
    pub message: &'static str,
}

/// The first thread records five events, marks the program as crashed if it is asked to, and
/// prints that it is done.
pub fn flight_recorder_test(tid: u32, should_crash: u32) -> (r: Option<Recording>)
    ensures
        match r {
            None => tid != 0,
            Some(rec) => {
                &&& tid == 0
                &&& rec.crashed == (should_crash != 0)
                &&& rec.message@ == "flight recorder test done"@
                &&& rec.events@.len() == 5
                &&& rec.events@[0].0 == TraceLevel::Info && rec.events@[0].1@ == "initializing"@
                &&& rec.events@[1].0 == TraceLevel::Debug && rec.events@[1].1@
                    == "processing data"@
                &&& rec.events@[2].0 == TraceLevel::Info && rec.events@[2].1@
                    == "checkpoint reached"@
                &&& rec.events@[3].0 == TraceLevel::Warn && rec.events@[3].1@
                    == "warning: low memory"@
                &&& rec.events@[4].0 == TraceLevel::Info && rec.events@[4].1@
                    == "computation complete"@
            },
        },
{
    if tid != 0 {
        return None;
    }
    let mut events: Vec<(TraceLevel, &'static str)> = Vec::new();
    events.push((TraceLevel::Info, "initializing"));
    events.push((TraceLevel::Debug, "processing data"));
    events.push((TraceLevel::Info, "checkpoint reached"));
    events.push((TraceLevel::Warn, "warning: low memory"));
    events.push((TraceLevel::Info, "computation complete"));
    Some(
        Recording {
            events,
            crashed: should_crash != 0,
            message: "flight recorder test done",
        },
    )
}

/// The first thread of a launch leaves a mark and panics with a message.
pub fn panic_test_kernel(at: &Thread, marker: &mut u32) -> (message: Option<&'static str>)
    requires
        at.fits(),
    ensures
        match message {
            Some(m) => at.gid() == 0 && *final(marker) == 1 && m@
                == "test panic from GPU thread 0"@,
            None => at.gid() != 0 && *final(marker) == *old(marker),
        },
{
    if at.index() != 0 {
        return None;
    }
    *marker = 1;
    Some("test panic from GPU thread 0")
}

} // verus!
