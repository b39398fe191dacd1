//! Tasks that branch, loop and use files.
//!
//! A task makes one call to the host after the other. Which call comes next depends on
//! the task's parameters and on what the host answered before.

use vstd::prelude::*;

use crate::warp::poll::{OpenMode, Outcome};

verus! {

/// What a task does.
#[derive(Clone, Copy, Debug, PartialEq, Eq, Structural)]
pub enum Program {
    /// Prints two messages.
    MacroPrint,
    /// Prints one of two messages and a last one.
    IfElse { flag: u64 },
    /// Prints a message again and again while it counts down, and a last one.
    Loop { counter: u64 },
    /// Prints one of three messages and a last one.
    Match { cmd: u64 },
    /// Prints one of four messages and a last one.
    Nested { flag: u64, cmd: u64 },
    /// Writes a file, reads one and judges its size, or writes one and reads it back.
    Autonomous { mode: u64 },
    /// Opens a file and gives up if that fails.
    TryOpen,
    /// Prints two messages.
    Await,
    /// Prints a message, one that depends on how that went, and a last one.
    EndToEnd,
}

/// A call to the host.
#[derive(Clone, Copy, Debug)]
pub enum TaskCall {
    Print(&'static str),
    Open(&'static str, OpenMode),
    Write(u64, &'static str),
    Read(u64, u64),
    Close(u64),
}

/// What a [`TaskCall`] asks for.
pub enum CallModel {
    Print(Seq<char>),
    Open(Seq<char>, OpenMode),
    Write(u64, Seq<char>),
    Read(u64, u64),
    Close(u64),
}

impl View for TaskCall {
    type V = CallModel;

    open spec fn view(&self) -> CallModel {
        match self {
            TaskCall::Print(text) => CallModel::Print(text@),
            TaskCall::Open(path, mode) => CallModel::Open(path@, *mode),
            TaskCall::Write(fd, text) => CallModel::Write(*fd, text@),
            TaskCall::Read(fd, capacity) => CallModel::Read(*fd, *capacity),
            TaskCall::Close(fd) => CallModel::Close(*fd),
        }
    }
}

/// How often the loop prints: as often as the counter says, but at least once.
pub open spec fn rounds(counter: u64) -> u64 {
    if counter == 0 {
        1
    } else {
        counter
    }
}

/// The number of the last call.
pub open spec fn last_step(p: Program) -> u64 {
    match p {
        Program::Loop { counter } => rounds(counter),
        Program::Autonomous { mode } => if mode <= 1 {
            5
        } else {
            8
        },
        Program::EndToEnd => 2,
        _ => 1,
    }
}

/// A call of the autonomous task.
pub open spec fn autonomous_call(mode: u64, step: u64, fd: u64, value: u64) -> CallModel {
    if step == 0 {
        CallModel::Print("auto: start"@)
    } else if mode == 0 {
        if step == 1 {
            CallModel::Open("gpu_autonomous.txt"@, OpenMode::WriteCreate)
        } else if step == 2 {
            CallModel::Write(fd, "GPU-autonomous-output"@)
        } else if step == 3 {
            CallModel::Close(fd)
        } else if step == 4 {
            CallModel::Print("auto: file-written"@)
        } else {
            CallModel::Print("auto: done"@)
        }
    } else if mode == 1 {
        if step == 1 {
            CallModel::Open("gpu_autonomous.txt"@, OpenMode::Read)
        } else if step == 2 {
            CallModel::Read(fd, 56)
        } else if step == 3 {
            CallModel::Close(fd)
        } else if step == 4 {
            if value > 10 {
                CallModel::Print("auto: large-payload"@)
            } else {
                CallModel::Print("auto: small-payload"@)
            }
        } else {
            CallModel::Print("auto: done"@)
        }
    } else if step == 1 {
        CallModel::Open("gpu_roundtrip.txt"@, OpenMode::WriteCreate)
    } else if step == 2 {
        CallModel::Write(fd, "verify-me"@)
    } else if step == 3 {
        CallModel::Close(fd)
    } else if step == 4 {
        CallModel::Open("gpu_roundtrip.txt"@, OpenMode::Read)
    } else if step == 5 {
        CallModel::Read(fd, 56)
    } else if step == 6 {
        CallModel::Close(fd)
    } else if step == 7 {
        if value > 0 {
            CallModel::Print("auto: roundtrip-ok"@)
        } else {
            CallModel::Print("auto: roundtrip-fail"@)
        }
    } else {
        CallModel::Print("auto: done"@)
    }
}

/// A call of a task: `fd` is what the last open was answered with, `value` what the last
/// read or print was answered with.
pub open spec fn call_at(p: Program, step: u64, fd: u64, value: u64) -> CallModel {
    match p {
        Program::MacroPrint => if step == 0 {
            CallModel::Print("Macro[1/2]: GENERATED_CODE!!"@)
        } else {
            CallModel::Print("Macro[2/2]: PROC_MACRO_WORKS!"@)
        },
        Program::IfElse { flag } => if step > 0 {
            CallModel::Print("branch: done"@)
        } else if flag != 0 {
            CallModel::Print("branch: then"@)
        } else {
            CallModel::Print("branch: else"@)
        },
        Program::Loop { counter } => if step < rounds(counter) {
            CallModel::Print("iter"@)
        } else {
            CallModel::Print("done"@)
        },
        Program::Match { cmd } => if step > 0 {
            CallModel::Print("match: done"@)
        } else if cmd == 0 {
            CallModel::Print("cmd: zero"@)
        } else if cmd == 1 {
            CallModel::Print("cmd: one"@)
        } else {
            CallModel::Print("cmd: other"@)
        },
        Program::Nested { flag, cmd } => if step > 0 {
            CallModel::Print("nested: done"@)
        } else if flag == 0 {
            CallModel::Print("else-path"@)
        } else if cmd == 0 {
            CallModel::Print("then-cmd0"@)
        } else if cmd == 1 {
            CallModel::Print("then-cmd1"@)
        } else {
            CallModel::Print("then-other"@)
        },
        Program::Autonomous { mode } => autonomous_call(mode, step, fd, value),
        Program::TryOpen => if step == 0 {
            CallModel::Open("/tmp/warp_try_test.txt"@, OpenMode::WriteCreate)
        } else {
            CallModel::Print("try: opened"@)
        },
        Program::Await => if step == 0 {
            CallModel::Print("await: hello"@)
        } else {
            CallModel::Print("await: done"@)
        },
        Program::EndToEnd => if step == 0 {
            CallModel::Print("e2e: start"@)
        } else if step == 1 {
            if value > 0 {
                CallModel::Print("e2e: ok"@)
            } else {
                CallModel::Print("e2e: fail"@)
            }
        } else {
            CallModel::Print("e2e: mixed"@)
        },
    }
}

/// How often the loop prints.
fn count_rounds(counter: u64) -> (r: u64)
    ensures
        r == rounds(counter),
{
    if counter == 0 {
        1
    } else {
        counter
    }
}

fn autonomous_pipeline(mode: u64, step: u64, fd: u64, value: u64) -> (r: TaskCall)
    ensures
        r@ == autonomous_call(mode, step, fd, value),
{
    if step == 0 {
        return TaskCall::Print("auto: start");
    }
    match mode {
        0 => match step {
            1 => TaskCall::Open("gpu_autonomous.txt", OpenMode::WriteCreate),
            2 => TaskCall::Write(fd, "GPU-autonomous-output"),
            3 => TaskCall::Close(fd),
            4 => TaskCall::Print("auto: file-written"),
            _ => TaskCall::Print("auto: done"),
        },
        1 => match step {
            1 => TaskCall::Open("gpu_autonomous.txt", OpenMode::Read),
            2 => TaskCall::Read(fd, 56),
            3 => TaskCall::Close(fd),
            4 => if value > 10 {
                TaskCall::Print("auto: large-payload")
            } else {
                TaskCall::Print("auto: small-payload")
            },
            _ => TaskCall::Print("auto: done"),
        },
        _ => match step {
            1 => TaskCall::Open("gpu_roundtrip.txt", OpenMode::WriteCreate),
            2 => TaskCall::Write(fd, "verify-me"),
            3 => TaskCall::Close(fd),
            4 => TaskCall::Open("gpu_roundtrip.txt", OpenMode::Read),
            5 => TaskCall::Read(fd, 56),
            6 => TaskCall::Close(fd),
            7 => if value > 0 {
                TaskCall::Print("auto: roundtrip-ok")
            } else {
                TaskCall::Print("auto: roundtrip-fail")
            },
            _ => TaskCall::Print("auto: done"),
        },
    }
}

/// The answer to an open that stands for no file.
pub const NO_FILE: u64 = 0xFFFF;

/// What a poll of a task comes to.
#[derive(Clone, Copy, Debug, PartialEq, Eq, Structural)]
pub enum TaskPoll {
    Pending,
    Done,
    Failed(u32),
}

/// A task under way.
#[derive(Clone, Copy, Debug, PartialEq, Eq, Structural)]
pub struct WarpTask {
    /// What the task does.
    pub program: Program,
    /// The number of the current call.
    pub step: u64,
    /// Whether the call has been handed to the host.
    pub waiting: bool,
    /// Whether, and how, the task has ended.
    pub end: TaskPoll,
    /// What the last open was answered with.
    pub fd: u64,
    /// What the last read or print was answered with.
    pub value: u64,
}

/// A task after an answer to its current call.
pub open spec fn answered(t: WarpTask, v: u64) -> WarpTask {
    let call = call_at(t.program, t.step, t.fd, t.value);
    let failed = t.program == Program::TryOpen && call is Open && v == NO_FILE;
    WarpTask {
        program: t.program,
        step: if failed || t.step == last_step(t.program) {
            t.step
        } else {
            (t.step + 1) as u64
        },
        waiting: false,
        end: if failed {
            TaskPoll::Failed(0xFFFF)
        } else if t.step == last_step(t.program) {
            TaskPoll::Done
        } else {
            TaskPoll::Pending
        },
        fd: if call is Open {
            v
        } else {
            t.fd
        },
        value: if call is Print || call is Read {
            v
        } else {
            t.value
        },
    }
}

/// A task after a poll.
pub open spec fn polled(t: WarpTask, outcome: Outcome) -> WarpTask {
    if t.end != TaskPoll::Pending {
        t
    } else if !t.waiting {
        if outcome == Outcome::Submitted {
            WarpTask { waiting: true, ..t }
        } else {
            t
        }
    } else {
        match outcome {
            Outcome::Replied(v) => answered(t, v),
            _ => t,
        }
    }
}

impl WarpTask {
    /// The current call is one of the program's.
    pub open spec fn wf(&self) -> bool {
        &&& self.step <= last_step(self.program)
        &&& self.end == TaskPoll::Done ==> self.step == last_step(self.program)
    }

    /// A task that has done nothing yet.
    pub fn new(program: Program) -> (t: WarpTask)
        ensures
            t.wf(),
            t == (WarpTask {
                program,
                step: 0,
                waiting: false,
                end: TaskPoll::Pending,
                fd: 0,
                value: 0,
            }),
    {
        WarpTask { program, step: 0, waiting: false, end: TaskPoll::Pending, fd: 0, value: 0 }
    }

    /// The current call.
    pub fn call(&self) -> (r: TaskCall)
        ensures
            r@ == call_at(self.program, self.step, self.fd, self.value),
    {
        let step: u64 = self.step;
        match self.program {
            Program::MacroPrint => if step == 0 {
                TaskCall::Print("Macro[1/2]: GENERATED_CODE!!")
            } else {
                TaskCall::Print("Macro[2/2]: PROC_MACRO_WORKS!")
            },
            Program::IfElse { flag } => if step > 0 {
                TaskCall::Print("branch: done")
            } else if flag != 0 {
                TaskCall::Print("branch: then")
            } else {
                TaskCall::Print("branch: else")
            },
            Program::Loop { counter } => if step < count_rounds(counter) {
                TaskCall::Print("iter")
            } else {
                TaskCall::Print("done")
            },
            Program::Match { cmd } => if step > 0 {
                TaskCall::Print("match: done")
            } else if cmd == 0 {
                TaskCall::Print("cmd: zero")
            } else if cmd == 1 {
                TaskCall::Print("cmd: one")
            } else {
                TaskCall::Print("cmd: other")
            },
            Program::Nested { flag, cmd } => if step > 0 {
                TaskCall::Print("nested: done")
            } else if flag == 0 {
                TaskCall::Print("else-path")
            } else if cmd == 0 {
                TaskCall::Print("then-cmd0")
            } else if cmd == 1 {
                TaskCall::Print("then-cmd1")
            } else {
                TaskCall::Print("then-other")
            },
            Program::Autonomous { mode } => autonomous_pipeline(mode, step, self.fd, self.value),
            Program::TryOpen => if step == 0 {
                TaskCall::Open("/tmp/warp_try_test.txt", OpenMode::WriteCreate)
            } else {
                TaskCall::Print("try: opened")
            },
            Program::Await => if step == 0 {
                TaskCall::Print("await: hello")
            } else {
                TaskCall::Print("await: done")
            },
            Program::EndToEnd => if step == 0 {
                TaskCall::Print("e2e: start")
            } else if step == 1 {
                if self.value > 0 {
                    TaskCall::Print("e2e: ok")
                } else {
                    TaskCall::Print("e2e: fail")
                }
            } else {
                TaskCall::Print("e2e: mixed")
            },
        }
    }

    fn last(&self) -> (r: bool)
        ensures
            r == (self.step == last_step(self.program)),
    {
        match self.program {
            Program::Loop { counter } => self.step == count_rounds(counter),
            Program::Autonomous { mode } => self.step == if mode <= 1 {
                5
            } else {
                8
            },
            Program::EndToEnd => self.step == 2,
            _ => self.step == 1,
        }
    }

    fn answer(&mut self, v: u64)
        requires
            old(self).wf(),
            old(self).end == TaskPoll::Pending,
        ensures
            final(self).wf(),
            *final(self) == answered(*old(self), v),
    {
        let last: bool = self.last();
        let mut failed: bool = false;
        match self.call() {
            TaskCall::Open(_, _) => {
                self.fd = v;
                match self.program {
                    Program::TryOpen => {
                        failed = v == NO_FILE;
                    },
                    _ => {},
                }
            },
            TaskCall::Print(_) => {
                self.value = v;
            },
            TaskCall::Read(_, _) => {
                self.value = v;
            },
            _ => {},
        }
        self.waiting = false;
        if failed {
            self.end = TaskPoll::Failed(0xFFFF);
        } else if last {
            self.end = TaskPoll::Done;
        } else {
            self.step = self.step + 1;
        }
    }

    /// Polls the task.
    pub fn poll_warp(&mut self, outcome: Outcome) -> (r: TaskPoll)
        requires
            old(self).wf(),
        ensures
            final(self).wf(),
            *final(self) == polled(*old(self), outcome),
            r == final(self).end,
    {
        if self.end == TaskPoll::Pending {
            if !self.waiting {
                if outcome == Outcome::Submitted {
                    self.waiting = true;
                }
            } else {
                match outcome {
                    Outcome::Replied(v) => self.answer(v),
                    _ => {},
                }
            }
        }
        self.end
    }
}

/// A task after a number of answers.
pub open spec fn after(p: Program, answers: Seq<u64>) -> WarpTask
    decreases answers.len(),
{
    if answers.len() == 0 {
        WarpTask {
            program: p,
            step: 0,
            waiting: false,
            end: TaskPoll::Pending,
            fd: 0,
            value: 0,
        }
    } else {
        let t = after(p, answers.drop_last());
        if t.end == TaskPoll::Pending {
            answered(t, answers.last())
        } else {
            t
        }
    }
}

proof fn lemma_step(p: Program, answers: Seq<u64>)
    requires
        p != Program::TryOpen,
        answers.len() <= last_step(p) + 1,
    ensures
        ({
            let t = after(p, answers);
            &&& t.program == p
            &&& t.step == if answers.len() <= last_step(p) {
                answers.len() as int
            } else {
                last_step(p) as int
            }
            &&& t.end == if answers.len() <= last_step(p) {
                TaskPoll::Pending
            } else {
                TaskPoll::Done
            }
        }),
    decreases answers.len(),
{
    if answers.len() > 0 {
        lemma_step(p, answers.drop_last());
    }
}

/// A task that cannot give up ends with the answer to its last call, and not before,
/// whatever the answers are.
pub proof fn tasks_end_after_their_last_call(p: Program, answers: Seq<u64>)
    requires
        p != Program::TryOpen,
        answers.len() <= last_step(p) + 1,
    ensures
        after(p, answers).end == if answers.len() == last_step(p) + 1 {
            TaskPoll::Done
        } else {
            TaskPoll::Pending
        },
{
    lemma_step(p, answers);
}

/// The loop prints as often as its counter says, at least once, and then the last message.
pub proof fn loop_counts_down(counter: u64, answers: Seq<u64>)
    requires
        answers.len() <= rounds(counter),
    ensures
        ({
            let p = Program::Loop { counter };
            let t = after(p, answers);
            call_at(p, t.step, t.fd, t.value) == if answers.len() < rounds(counter) {
                CallModel::Print("iter"@)
            } else {
                CallModel::Print("done"@)
            }
        }),
{
    lemma_step(Program::Loop { counter }, answers);
}

/// The autonomous task uses the file that its last open gave, and judges what its last
/// read gave.
proof fn lemma_autonomous(mode: u64, answers: Seq<u64>)
    requires
        answers.len() <= last_step(Program::Autonomous { mode }),
    ensures
        ({
            let t = after(Program::Autonomous { mode }, answers);
            let n = answers.len();
            &&& 2 <= n && (mode <= 1 || n <= 4) ==> t.fd == answers[1]
            &&& n >= 5 && mode > 1 ==> t.fd == answers[4]
            &&& mode == 1 && n == 3 ==> t.value == answers[2]
            &&& mode == 1 && n == 4 ==> t.value == answers[2]
            &&& mode > 1 && n == 6 ==> t.value == answers[5]
            &&& mode > 1 && n == 7 ==> t.value == answers[5]
        }),
    decreases answers.len(),
{
    lemma_step(Program::Autonomous { mode }, answers);
    if answers.len() > 0 {
        let front = answers.drop_last();
        lemma_autonomous(mode, front);
        lemma_step(Program::Autonomous { mode }, front);
        assert(forall|i: int| 0 <= i < front.len() ==> front[i] == answers[i]);
    }
}

/// Every file that the autonomous task opens is closed by the third call after it was
/// opened at the latest, under the descriptor that the host gave.
pub proof fn opened_files_are_closed(mode: u64, answers: Seq<u64>)
    ensures
        answers.len() == 3 ==> {
            let t = after(Program::Autonomous { mode }, answers);
            call_at(t.program, t.step, t.fd, t.value) == CallModel::Close(answers[1])
        },
        answers.len() == 6 && mode > 1 ==> {
            let t = after(Program::Autonomous { mode }, answers);
            call_at(t.program, t.step, t.fd, t.value) == CallModel::Close(answers[4])
        },
{
    if answers.len() == 3 || (answers.len() == 6 && mode > 1) {
        lemma_step(Program::Autonomous { mode }, answers);
        lemma_autonomous(mode, answers);
    }
}

/// The autonomous task tells a large file from a small one by what the read gave, and a
/// good round trip from a bad one.
pub proof fn reads_are_judged(mode: u64, answers: Seq<u64>)
    ensures
        answers.len() == 4 && mode == 1 ==> {
            let t = after(Program::Autonomous { mode }, answers);
            call_at(t.program, t.step, t.fd, t.value) == if answers[2] > 10 {
                CallModel::Print("auto: large-payload"@)
            } else {
                CallModel::Print("auto: small-payload"@)
            }
        },
        answers.len() == 7 && mode > 1 ==> {
            let t = after(Program::Autonomous { mode }, answers);
            call_at(t.program, t.step, t.fd, t.value) == if answers[5] > 0 {
                CallModel::Print("auto: roundtrip-ok"@)
            } else {
                CallModel::Print("auto: roundtrip-fail"@)
            }
        },
{
    if (answers.len() == 4 && mode == 1) || (answers.len() == 7 && mode > 1) {
        lemma_step(Program::Autonomous { mode }, answers);
        lemma_autonomous(mode, answers);
    }
}

/// A file that cannot be opened ends the task with an error before it prints anything.
pub proof fn failed_open_is_passed_on(t: WarpTask)
    requires
        t.program == Program::TryOpen,
        t.step == 0,
        t.waiting,
        t.end == TaskPoll::Pending,
    ensures
        forall|v: u64|
            (#[trigger] polled(t, Outcome::Replied(v))).end == if v == NO_FILE {
                TaskPoll::Failed(0xFFFF)
            } else {
                TaskPoll::Pending
            },
{
}

} // verus!
