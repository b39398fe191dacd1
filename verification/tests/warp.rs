use gpu_host::warp::lanes::{broadcast, test_warp_intrinsics, write_together};
use gpu_host::warp::poll::{OpenMode, Outcome, WarpPoll};
use gpu_host::warp::print::{
    message_parts, print_parts, warp_future_multi_print_test, warp_future_print_test,
    WarpMultiPrintFuture, WarpPrintFuture,
};
use gpu_host::warp::tasks::{Program, TaskCall, TaskPoll, WarpTask};

#[test]
fn lane_zero_reaches_all_lanes() {
    let mut output = vec![0u32; 33];
    test_warp_intrinsics(&mut output);
    assert_eq!(&output[0..32], &[0xCAFE_BABE; 32]);
    assert_eq!(output[32], 0);
    assert_eq!(broadcast(&vec![4, 5, 6], 1), vec![5, 5, 5]);
}

#[test]
fn the_lanes_write_one_message() {
    let (front, back) = print_parts();
    let mut payload = vec![0u8; 64];
    write_together(&mut payload, &front, &back);
    assert_eq!(payload[0], 44);
    assert_eq!(&payload[8..52], &b"WarpFuture: ABCDEFGHIJKLMNOPQRSTUVWXYZ[\\]^_`"[..]);
}

#[test]
fn one_message_takes_two_polls() {
    let mut f = WarpPrintFuture::new();
    assert_eq!(f.poll_warp(Outcome::Stalled), WarpPoll::Pending);
    assert_eq!(f.poll_warp(Outcome::Submitted), WarpPoll::Pending);
    assert_eq!(f.poll_warp(Outcome::Stalled), WarpPoll::Pending);
    assert_eq!(f.poll_warp(Outcome::Replied(0)), WarpPoll::Ready(true));
    assert_eq!(f.poll_warp(Outcome::Stalled), WarpPoll::Ready(true));
}

#[test]
fn three_messages_take_six_polls() {
    let mut f = WarpMultiPrintFuture::new();
    let mut sent = Vec::new();
    for round in 0..3 {
        let call = f.current_message().unwrap();
        let (front, back) = message_parts(call);
        sent.push(format!("{front}{back}"));
        assert_eq!(f.poll_warp(Outcome::Submitted), WarpPoll::Pending);
        assert_eq!(f.current_message(), None);
        let expected = if round == 2 { WarpPoll::Ready(true) } else { WarpPoll::Pending };
        assert_eq!(f.poll_warp(Outcome::Replied(0)), expected);
    }
    assert_eq!(f.calls_completed, 3);
    assert_eq!(
        sent,
        vec![
            "WarpMulti[1/3]: HELLO_FROM_32_LANES!!",
            "WarpMulti[2/3]: SECOND_CALL_WORKING!",
            "WarpMulti[3/3]: PIPELINE_COMPLETE!!",
        ]
    );
    let mut result = 7;
    warp_future_multi_print_test(true, 3, &mut result);
    assert_eq!(result, 7);
    warp_future_multi_print_test(true, 0, &mut result);
    assert_eq!(result, 1);
    warp_future_print_test(false, 0, &mut result);
    assert_eq!(result, 0);
}

/// Runs a task; `answer` says what the host answers to each call.
fn run(program: Program, answer: impl Fn(&TaskCall) -> u64) -> (Vec<String>, TaskPoll) {
    let mut task = WarpTask::new(program);
    let mut calls = Vec::new();
    loop {
        let call = task.call();
        calls.push(match call {
            TaskCall::Print(text) => text.to_string(),
            TaskCall::Open(path, OpenMode::Read) => format!("read {path}"),
            TaskCall::Open(path, _) => format!("create {path}"),
            TaskCall::Write(fd, text) => format!("write {fd} {text}"),
            TaskCall::Read(fd, n) => format!("read {fd} {n}"),
            TaskCall::Close(fd) => format!("close {fd}"),
        });
        assert_eq!(task.poll_warp(Outcome::Stalled), TaskPoll::Pending);
        assert_eq!(task.poll_warp(Outcome::Submitted), TaskPoll::Pending);
        match task.poll_warp(Outcome::Replied(answer(&call))) {
            TaskPoll::Pending => (),
            end => return (calls, end),
        }
    }
}

#[test]
fn branches_print_their_message() {
    let print = |p| run(p, |_| 1);
    assert_eq!(print(Program::IfElse { flag: 1 }).0, vec!["branch: then", "branch: done"]);
    assert_eq!(print(Program::IfElse { flag: 0 }).0, vec!["branch: else", "branch: done"]);
    assert_eq!(print(Program::Match { cmd: 0 }).0, vec!["cmd: zero", "match: done"]);
    assert_eq!(print(Program::Match { cmd: 1 }).0, vec!["cmd: one", "match: done"]);
    assert_eq!(print(Program::Match { cmd: 99 }).0, vec!["cmd: other", "match: done"]);
    let nested = |flag, cmd| print(Program::Nested { flag, cmd }).0;
    assert_eq!(nested(1, 0), vec!["then-cmd0", "nested: done"]);
    assert_eq!(nested(1, 1), vec!["then-cmd1", "nested: done"]);
    assert_eq!(nested(1, 99), vec!["then-other", "nested: done"]);
    assert_eq!(nested(0, 0), vec!["else-path", "nested: done"]);
    assert_eq!(print(Program::MacroPrint).1, TaskPoll::Done);
    assert_eq!(print(Program::Await).0, vec!["await: hello", "await: done"]);
}

#[test]
fn the_loop_counts_down() {
    assert_eq!(run(Program::Loop { counter: 0 }, |_| 1).0, vec!["iter", "done"]);
    assert_eq!(run(Program::Loop { counter: 3 }, |_| 1).0, vec!["iter", "iter", "iter", "done"]);
}

#[test]
fn the_autonomous_task_works_on_files() {
    let (calls, end) = run(Program::Autonomous { mode: 0 }, |c| match c {
        TaskCall::Open(..) => 5,
        _ => 0,
    });
    assert_eq!(end, TaskPoll::Done);
    assert_eq!(
        calls,
        vec![
            "auto: start",
            "create gpu_autonomous.txt",
            "write 5 GPU-autonomous-output",
            "close 5",
            "auto: file-written",
            "auto: done",
        ]
    );
    for (size, verdict) in [(11, "auto: large-payload"), (10, "auto: small-payload")] {
        let (calls, _) = run(Program::Autonomous { mode: 1 }, |c| match c {
            TaskCall::Open(..) => 5,
            TaskCall::Read(..) => size,
            _ => 0,
        });
        assert_eq!(calls[1..5], ["read gpu_autonomous.txt", "read 5 56", "close 5", verdict]);
    }
    for (size, verdict) in [(9, "auto: roundtrip-ok"), (0, "auto: roundtrip-fail")] {
        let (calls, _) = run(Program::Autonomous { mode: 2 }, |c| match c {
            TaskCall::Open(_, OpenMode::Read) => 6,
            TaskCall::Open(..) => 5,
            TaskCall::Read(..) => size,
            _ => 0,
        });
        assert_eq!(calls[3..8], [
            "close 5",
            "read gpu_roundtrip.txt",
            "read 6 56",
            "close 6",
            verdict,
        ]);
    }
}

#[test]
fn a_failed_open_ends_the_task() {
    let (calls, end) = run(Program::TryOpen, |_| 0xFFFF);
    assert_eq!((calls.len(), end), (1, TaskPoll::Failed(0xFFFF)));
    let (calls, end) = run(Program::TryOpen, |_| 4);
    assert_eq!((calls[1].as_str(), end), ("try: opened", TaskPoll::Done));
}

#[test]
fn the_second_message_depends_on_the_first() {
    assert_eq!(run(Program::EndToEnd, |_| 1).0, vec!["e2e: start", "e2e: ok", "e2e: mixed"]);
    assert_eq!(run(Program::EndToEnd, |_| 0).0, vec!["e2e: start", "e2e: fail", "e2e: mixed"]);
}
