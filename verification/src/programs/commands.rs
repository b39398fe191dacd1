//! Programs that work on words in memory that the host shares with them.

use vstd::prelude::*;

use crate::bytes::{read_slot, read_word, slot_at, word_at};

verus! {

/// The word by which the second session program knows that the first one ran.
pub const SESSION_MAGIC: u32 = 0xCAFE;

/// The first program of a session: its first thread prints a message and leaves the word.
pub fn session_kernel_a(tid: u32, shared_state: &mut u32) -> (message: Option<&'static str>)
    ensures
        match message {
            Some(m) => tid == 0 && m@ == "session kernel A"@ && *final(shared_state)
                == SESSION_MAGIC,
            None => tid != 0 && *final(shared_state) == *old(shared_state),
        },
{
    if tid != 0 {
        return None;
    }
    *shared_state = SESSION_MAGIC;
    Some("session kernel A")
}

/// The second program of a session: its first thread prints a message and leaves whether the
/// word is there.
pub fn session_kernel_b(tid: u32, shared_state: u32, result: &mut u32) -> (message: Option<
    &'static str,
>)
    ensures
        match message {
            Some(m) => tid == 0 && m@ == "session kernel B"@ && *final(result) == if shared_state
                == SESSION_MAGIC {
                1u32
            } else {
                0u32
            },
            None => tid != 0 && *final(result) == *old(result),
        },
{
    if tid != 0 {
        return None;
    }
    *result = if shared_state == SESSION_MAGIC {
        1
    } else {
        0
    };
    Some("session kernel B")
}

/// Every word multiplied by a factor.
pub open spec fn scaled(data: Seq<u32>, count: nat, factor: int) -> Seq<u32> {
    Seq::new(count, |i: int| (data[i] * factor) as u32)
}

/// The front of `out` replaced by `values`.
pub open spec fn overwritten(out: Seq<u32>, values: Seq<u32>) -> Seq<u32> {
    values + out.skip(values.len() as int)
}

/// Writes `factor` times each of the first `count` words.
fn scale_words(data: &Vec<u32>, out: &mut Vec<u32>, count: usize, factor: u32)
    requires
        count <= data@.len(),
        count <= old(out)@.len(),
        forall|i: int| 0 <= i < count ==> #[trigger] data@[i] * factor <= u32::MAX,
    ensures
        final(out)@ == overwritten(old(out)@, scaled(data@, count as nat, factor as int)),
{
    let ghost before = out@;
    assert(out@ =~= overwritten(before, scaled(data@, 0, factor as int)));
    for i in 0..count
        invariant
            count <= data@.len(),
            count <= before.len(),
            forall|i: int| 0 <= i < count ==> #[trigger] data@[i] * factor <= u32::MAX,
            out@ == overwritten(before, scaled(data@, i as nat, factor as int)),
    {
        let value: u32 = data[i];
        assert(data@[i as int] * factor <= u32::MAX);
        out.set(i, value * factor);
        assert(out@ =~= overwritten(before, scaled(data@, (i + 1) as nat, factor as int)));
    }
}

/// The words that the writer leaves: 100, 200, 300 and so on.
pub open spec fn written_words(count: nat) -> Seq<u32> {
    Seq::new(count, |i: int| ((i + 1) * 100) as u32)
}

/// The writer's first thread leaves its words in shared memory and prints that it is done.
pub fn pipeline_writer_kernel(tid: u32, data: &mut Vec<u32>, count: u32) -> (message: Option<
    &'static str,
>)
    requires
        tid == 0 ==> count <= old(data)@.len(),
        tid == 0 ==> count * 100 <= u32::MAX,
    ensures
        match message {
            Some(m) => tid == 0 && m@ == "pipeline writer done"@ && final(data)@ == overwritten(
                old(data)@,
                written_words(count as nat),
            ),
            None => tid != 0 && final(data)@ == old(data)@,
        },
{
    if tid != 0 {
        return None;
    }
    let ghost before = data@;
    assert(data@ =~= overwritten(before, written_words(0)));
    for i in 0..count
        invariant
            count <= before.len(),
            count * 100 <= u32::MAX,
            data@ == overwritten(before, written_words(i as nat)),
    {
        data.set(i as usize, (i + 1) * 100);
        assert(data@ =~= overwritten(before, written_words((i + 1) as nat)));
    }
    Some("pipeline writer done")
}

/// The reader's first thread leaves three times the words that it finds and prints that it is
/// done.
pub fn pipeline_reader_kernel(
    tid: u32,
    data: &Vec<u32>,
    result: &mut Vec<u32>,
    count: u32,
) -> (message: Option<&'static str>)
    requires
        tid == 0 ==> count <= data@.len(),
        tid == 0 ==> count <= old(result)@.len(),
        tid == 0 ==> forall|i: int| 0 <= i < count ==> #[trigger] data@[i] * 3 <= u32::MAX,
    ensures
        match message {
            Some(m) => tid == 0 && m@ == "pipeline reader done"@ && final(result)@ == overwritten(
                old(result)@,
                scaled(data@, count as nat, 3),
            ),
            None => tid != 0 && final(result)@ == old(result)@,
        },
{
    if tid != 0 {
        return None;
    }
    scale_words(data, result, count as usize, 3);
    Some("pipeline reader done")
}

/// What the writer left, the reader triples.
pub proof fn reader_follows_writer(data: Seq<u32>, result: Seq<u32>, count: nat, i: int)
    requires
        count <= data.len(),
        count <= result.len(),
        count * 300 <= u32::MAX,
        0 <= i < count,
    ensures
        overwritten(
            result,
            scaled(overwritten(data, written_words(count)), count, 3),
        )[i] == (i + 1) * 300,
{
}

/// The codes of the commands.
#[derive(Clone, Copy, Debug, PartialEq, Eq, Structural)]
pub struct CommandCodes {
    pub compute: u32,
    pub print: u32,
    pub exit: u32,
}

impl CommandCodes {
    /// No two commands share a code.
    pub open spec fn distinct(self) -> bool {
        &&& self.compute != self.print
        &&& self.compute != self.exit
        &&& self.print != self.exit
    }
}

/// What the command loop does next.
#[derive(Clone, Copy, Debug, PartialEq, Eq, Structural)]
pub enum CommandStep {
    /// There is no command: let others run.
    Yield,
    /// Double `count` words from `input` to `output`, and acknowledge.
    Double { input: u64, output: u64, count: u32 },
    /// Print `len` bytes of the payload from byte 4 on, and acknowledge.
    Print { len: u32 },
    /// Acknowledge.
    Acknowledge,
    /// Acknowledge and end.
    Exit,
}

/// The bytes of a payload that a command needs.
pub const COMMAND_PAYLOAD: usize = 24;

/// What the loop does with a command.
pub open spec fn command_step(
    command: Option<(u32, Seq<u8>)>,
    codes: CommandCodes,
) -> CommandStep {
    match command {
        None => CommandStep::Yield,
        Some((code, payload)) => if code == codes.compute {
            CommandStep::Double {
                input: slot_at(payload, 0),
                output: slot_at(payload, 8),
                count: word_at(payload, 16),
            }
        } else if code == codes.print {
            CommandStep::Print { len: word_at(payload, 0) }
        } else if code == codes.exit {
            CommandStep::Exit
        } else {
            CommandStep::Acknowledge
        },
    }
}

/// A polled command, as a model.
pub open spec fn polled_command(command: Option<(u32, Vec<u8>)>) -> Option<(u32, Seq<u8>)> {
    match command {
        None => None,
        Some((code, payload)) => Some((code, payload@)),
    }
}

/// What the first thread does with what it polled. The other threads take no part.
pub fn multi_cmd_kernel(
    tid: u32,
    command: &Option<(u32, Vec<u8>)>,
    codes: &CommandCodes,
) -> (step: Option<CommandStep>)
    requires
        command matches Some(c) ==> c.1@.len() >= COMMAND_PAYLOAD,
    ensures
        step == if tid == 0 {
            Some(command_step(polled_command(*command), *codes))
        } else {
            None
        },
{
    if tid != 0 {
        return None;
    }
    let step: CommandStep = match command {
        None => CommandStep::Yield,
        Some((code, payload)) => {
            if *code == codes.compute {
                CommandStep::Double {
                    input: read_slot(payload.as_slice(), 0),
                    output: read_slot(payload.as_slice(), 8),
                    count: read_word(payload.as_slice(), 16),
                }
            } else if *code == codes.print {
                CommandStep::Print { len: read_word(payload.as_slice(), 0) }
            } else if *code == codes.exit {
                CommandStep::Exit
            } else {
                CommandStep::Acknowledge
            }
        },
    };
    Some(step)
}

/// Carries out a doubling.
pub fn double_words(input: &Vec<u32>, output: &mut Vec<u32>, count: u32)
    requires
        count <= input@.len(),
        count <= old(output)@.len(),
        forall|i: int| 0 <= i < count ==> #[trigger] input@[i] * 2 <= u32::MAX,
    ensures
        final(output)@ == overwritten(old(output)@, scaled(input@, count as nat, 2)),
{
    scale_words(input, output, count as usize, 2);
}

/// Only the exit command ends the loop, and every command is acknowledged.
pub proof fn only_exit_ends_the_loop(command: Option<(u32, Seq<u8>)>, codes: CommandCodes)
    requires
        codes.distinct(),
    ensures
        command_step(command, codes) == CommandStep::Exit <==> (command matches Some(c) && c.0
            == codes.exit),
        command_step(command, codes) == CommandStep::Yield <==> command is None,
{
}

} // verus!
