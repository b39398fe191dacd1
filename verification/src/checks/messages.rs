//! Checks on what a program reported and printed.

use vstd::prelude::*;

verus! {

/// What a check found.
#[derive(Clone, Copy, Debug, PartialEq, Eq, Structural)]
pub enum Finding {
    /// All is as expected.
    Passed,
    /// The program did not report success.
    NoSuccess,
    /// The program printed that something went wrong.
    ReportedError,
    /// A message is missing, or there are too few or too many.
    WrongMessages,
    /// A number is not as expected.
    WrongNumber,
}

/// `text` holds `needle` at `at`.
pub open spec fn holds_at(text: Seq<char>, needle: Seq<char>, at: int) -> bool {
    0 <= at && at + needle.len() <= text.len() && text.subrange(at, at + needle.len()) == needle
}

/// `text` holds `needle` somewhere.
pub open spec fn holds(text: Seq<char>, needle: Seq<char>) -> bool {
    exists|at: int| #[trigger] holds_at(text, needle, at)
}

fn found_at(text: &str, needle: &str, at: usize) -> (r: bool)
    requires
        at + needle@.len() <= text@.len(),
    ensures
        r == holds_at(text@, needle@, at as int),
{
    let len: usize = needle.unicode_len();
    let size: usize = text.unicode_len();
    let ghost part = text@.subrange(at as int, at + len);
    for i in 0..len
        invariant
            len == needle@.len(),
            size == text@.len(),
            at + len <= size,
            part == text@.subrange(at as int, at + len),
            forall|j: int| 0 <= j < i ==> part[j] == needle@[j],
    {
        if text.get_char(at + i) != needle.get_char(i) {
            assert(part[i as int] != needle@[i as int]);
            return false;
        }
    }
    assert(part =~= needle@);
    true
}

/// Whether a text holds another.
pub fn contains(text: &str, needle: &str) -> (r: bool)
    ensures
        r == holds(text@, needle@),
{
    let len: usize = needle.unicode_len();
    let size: usize = text.unicode_len();
    if len > size {
        return false;
    }
    let last: usize = size - len;
    let mut at: usize = 0;
    loop
        invariant
            len == needle@.len(),
            size == text@.len(),
            last == size - len,
            at <= last,
            forall|i: int| 0 <= i < at ==> !#[trigger] holds_at(text@, needle@, i),
        decreases last - at,
    {
        if found_at(text, needle, at) {
            return true;
        }
        if at == last {
            return false;
        }
        at += 1;
    }
}

/// One of the messages holds a text.
pub open spec fn some_holds(messages: Seq<String>, needle: Seq<char>) -> bool {
    exists|i: int| 0 <= i < messages.len() && holds(#[trigger] messages[i]@, needle)
}

/// Whether one of the messages holds a text.
pub fn any_contains(messages: &Vec<String>, needle: &str) -> (r: bool)
    ensures
        r == some_holds(messages@, needle@),
{
    for i in 0..messages.len()
        invariant
            forall|j: int| 0 <= j < i ==> !holds(#[trigger] messages@[j]@, needle@),
    {
        if contains(messages[i].as_str(), needle) {
            return true;
        }
    }
    false
}

/// There are as many messages as texts, and each message holds its text.
pub open spec fn all_hold(messages: Seq<String>, needles: Seq<&str>) -> bool {
    &&& messages.len() == needles.len()
    &&& forall|i: int|
        0 <= i < messages.len() ==> holds(#[trigger] messages[i]@, needles[i]@)
}

/// Whether there are as many messages as texts, and each message holds its text.
pub fn in_order(messages: &Vec<String>, needles: &Vec<&str>) -> (r: bool)
    ensures
        r == all_hold(messages@, needles@),
{
    if messages.len() != needles.len() {
        return false;
    }
    for i in 0..messages.len()
        invariant
            messages@.len() == needles@.len(),
            forall|j: int| 0 <= j < i ==> holds(#[trigger] messages@[j]@, needles@[j]@),
    {
        if !contains(messages[i].as_str(), needles[i]) {
            return false;
        }
    }
    true
}

/// A program that prints one greeting.
pub fn check_hello(result: u32, messages: &Vec<String>) -> (r: Finding)
    ensures
        r == if result != 1 {
            Finding::NoSuccess
        } else if messages@.len() == 1 && holds(messages@[0]@, "Hello from GPU!"@) {
            Finding::Passed
        } else {
            Finding::WrongMessages
        },
{
    if result != 1 {
        Finding::NoSuccess
    } else if messages.len() == 1 && contains(messages[0].as_str(), "Hello from GPU!") {
        Finding::Passed
    } else {
        Finding::WrongMessages
    }
}

/// A program whose blocks print one message each.
pub fn check_blocks(success_count: u32, messages: usize, num_blocks: u32) -> (r: Finding)
    ensures
        r == if success_count != num_blocks {
            Finding::NoSuccess
        } else if messages != num_blocks {
            Finding::WrongMessages
        } else {
            Finding::Passed
        },
{
    if success_count != num_blocks {
        Finding::NoSuccess
    } else if messages != num_blocks as usize {
        Finding::WrongMessages
    } else {
        Finding::Passed
    }
}

/// How many packets a program needs whose blocks all print: one each, and at least eight.
/// The number of blocks is taken modulo 65536.
pub fn packets_for(num_blocks: u32) -> (r: u16)
    ensures
        r == if num_blocks % 0x1_0000 < 8 {
            8
        } else {
            num_blocks % 0x1_0000
        },
{
    let n: u16 = (num_blocks % 0x1_0000) as u16;
    if n < 8 {
        8
    } else {
        n
    }
}

/// A program that leaves a mark when it is done.
pub fn check_marker(success: u32) -> (r: Finding)
    ensures
        r == if success == 1 {
            Finding::Passed
        } else {
            Finding::NoSuccess
        },
{
    if success == 1 {
        Finding::Passed
    } else {
        Finding::NoSuccess
    }
}

/// A countdown that ends with 42.
pub fn check_countdown(value: u32, success: u32) -> (r: Finding)
    ensures
        r == if success != 1 {
            Finding::NoSuccess
        } else if value != 42 {
            Finding::WrongNumber
        } else {
            Finding::Passed
        },
{
    if success != 1 {
        Finding::NoSuccess
    } else if value != 42 {
        Finding::WrongNumber
    } else {
        Finding::Passed
    }
}

/// A task that prints a greeting.
pub fn check_async_single(success: u32, messages: &Vec<String>) -> (r: Finding)
    ensures
        r == if success != 1 {
            Finding::NoSuccess
        } else if messages@.len() > 0 && holds(messages@[0]@, "Async hello"@) {
            Finding::Passed
        } else {
            Finding::WrongMessages
        },
{
    if success != 1 {
        Finding::NoSuccess
    } else if messages.len() > 0 && contains(messages[0].as_str(), "Async hello") {
        Finding::Passed
    } else {
        Finding::WrongMessages
    }
}

/// Tasks that print at least two messages.
pub fn check_async_two(success: u32, messages: usize) -> (r: Finding)
    ensures
        r == if success != 1 {
            Finding::NoSuccess
        } else if messages < 2 {
            Finding::WrongMessages
        } else {
            Finding::Passed
        },
{
    if success != 1 {
        Finding::NoSuccess
    } else if messages < 2 {
        Finding::WrongMessages
    } else {
        Finding::Passed
    }
}

/// The file program prints no error, and all its marks.
pub fn check_file_io(messages: &Vec<String>) -> (r: Finding)
    ensures
        r == if some_holds(messages@, "[ERR]"@) {
            Finding::ReportedError
        } else if some_holds(messages@, "[OK] write_all"@) && some_holds(
            messages@,
            "[OK] read_to_end"@,
        ) && some_holds(messages@, "[DONE]"@) {
            Finding::Passed
        } else {
            Finding::WrongMessages
        },
{
    if any_contains(messages, "[ERR]") {
        Finding::ReportedError
    } else if any_contains(messages, "[OK] write_all") && any_contains(
        messages,
        "[OK] read_to_end",
    ) && any_contains(messages, "[DONE]") {
        Finding::Passed
    } else {
        Finding::WrongMessages
    }
}

/// A program prints no failure, and its mark of success.
pub fn check_marks(messages: &Vec<String>, failure: &str, success: &str) -> (r: Finding)
    ensures
        r == if some_holds(messages@, failure@) {
            Finding::ReportedError
        } else if some_holds(messages@, success@) {
            Finding::Passed
        } else {
            Finding::WrongMessages
        },
{
    if any_contains(messages, failure) {
        Finding::ReportedError
    } else if any_contains(messages, success) {
        Finding::Passed
    } else {
        Finding::WrongMessages
    }
}

/// A branching task prints two messages: one for the branch, and a last one.
pub fn check_branch(status: u32, messages: &Vec<String>, branch: &str, last: &str) -> (r: bool)
    ensures
        r == (status == 1 && some_holds(messages@, branch@) && some_holds(messages@, last@)
            && messages@.len() == 2),
{
    status == 1 && any_contains(messages, branch) && any_contains(messages, last) && messages.len()
        == 2
}

/// A task prints its messages in order.
pub fn check_sequence(status: u32, messages: &Vec<String>, expected: &Vec<&str>) -> (r: bool)
    ensures
        r == (status == 1 && all_hold(messages@, expected@)),
{
    status == 1 && in_order(messages, expected)
}

/// Input arrived: something was read, and it starts with an `H`.
pub fn check_stdin(success: u32, bytes_read: u32, first_byte: u32) -> (r: Finding)
    ensures
        r == if success != 1 {
            Finding::NoSuccess
        } else if bytes_read == 0 || first_byte != 0x48 {
            Finding::WrongNumber
        } else {
            Finding::Passed
        },
{
    if success != 1 {
        Finding::NoSuccess
    } else if bytes_read == 0 || first_byte != 0x48 {
        Finding::WrongNumber
    } else {
        Finding::Passed
    }
}

/// The earliest time that the host's clock can show, in seconds since the epoch.
pub const EARLIEST_SECS: u64 = 1700000000;

/// Time passed on the device, and the host's clock shows a time that can be.
pub fn check_time(gpu_delta: u64, host_secs: u64) -> (r: Finding)
    ensures
        r == if gpu_delta == 0 || host_secs < EARLIEST_SECS {
            Finding::WrongNumber
        } else {
            Finding::Passed
        },
{
    if gpu_delta == 0 || host_secs < EARLIEST_SECS {
        Finding::WrongNumber
    } else {
        Finding::Passed
    }
}

/// A message holds itself, and whatever was put before or behind what it holds.
pub proof fn longer_texts_hold_more(front: Seq<char>, text: Seq<char>, back: Seq<char>, needle: Seq<
    char,
>)
    requires
        holds(text, needle),
    ensures
        holds(front + text + back, needle),
{
    let at = choose|at: int| #[trigger] holds_at(text, needle, at);
    let whole = front + text + back;
    assert(whole.subrange(front.len() + at, front.len() + at + needle.len()) =~= text.subrange(
        at,
        at + needle.len(),
    ));
    assert(holds_at(whole, needle, front.len() + at));
}

} // verus!
