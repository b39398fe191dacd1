use gpu_host::hostcall::batch::PrintBuffer;
use gpu_host::hostcall::listener::{answer_control, answer_for, dispatch, Dispatch};
use gpu_host::hostcall::protocol::{Control, Service, ServiceCodes};
use gpu_host::hostcall::requests::{bulk_messages, fill_print, print_message};
use gpu_host::kernels::basic::Thread;
use gpu_host::libc::errno::ThreadPos;
use gpu_host::libc::memory::{gpu_heap_init, Device};
use gpu_host::programs::bench::{
    hostcall_latency_bench, hostcall_latency_bench_v2, Bench, BenchStep,
};
use gpu_host::programs::commands::{
    double_words, multi_cmd_kernel, pipeline_reader_kernel, pipeline_writer_kernel,
    session_kernel_a, session_kernel_b, CommandCodes, CommandStep,
};
use gpu_host::programs::files::{
    asks_for_input, error_propagation_test, file_contents, hostcall_stdin_time_test,
    make_bulk_pattern, BulkTest, FileReply, FileStep, FileTest,
};
use gpu_host::programs::heap::test_multithread_malloc;
use gpu_host::programs::messages::{
    buffered_print_result, count_success, hello_result, hostcall_print_hello, hostcall_print_multi, sharded_print_test,
};
use gpu_host::programs::roots::{autonomous_pipeline_kernel, convergence_kernel, isqrt};
use gpu_host::programs::stdlib::{
    check_read_back, fs_greeting, pipeline_data, pipeline_first_line, std_alloc_stress_test,
    std_file_io_test, std_pipeline_inner, std_pipeline_test, std_println_test, std_vec_format_test, FsOutcome, FsStep,
    Mismatch, PipeStep,
};
use gpu_host::programs::tracing::{
    flight_recorder_test, panic_test_kernel, trace_assert_test, trace_multithread_test, TraceLevel,
};
use gpu_host::warp::poll::OpenMode;

fn at(block: u32, tid: u32) -> Thread {
    Thread { block, block_dim: 32, tid }
}

fn codes() -> ServiceCodes {
    ServiceCodes {
        nop: 0,
        print: 1,
        time: 2,
        panic: 3,
        open: 10,
        write: 11,
        read: 12,
        close: 13,
        stdin: 14,
        bulk_write: 20,
        bulk_read: 21,
        bulk_print: 22,
    }
}

/// What the host does with a filled packet that asks for a service: the messages that it
/// prints, and how it answers.
fn serve(codes: &ServiceCodes, code: u32, payload: &Vec<u8>, msgs: &mut Vec<String>) -> Control {
    match dispatch(codes, Control::Filled, code) {
        Dispatch::Inline(Service::Print) => {
            msgs.push(String::from_utf8(print_message(payload)).unwrap());
            answer_control(false)
        }
        Dispatch::Reject => answer_control(true),
        other => panic!("{other:?}"),
    }
}

#[test]
fn test_hostcall_print_hello() {
    let codes = codes();
    let mut msgs = Vec::new();
    let mut result = 0;
    for tid in 0..32 {
        if let Some(message) = hostcall_print_hello(&at(0, tid)) {
            let mut payload = vec![0u8; 64];
            fill_print(&mut payload, &message);
            let control = serve(&codes, codes.code(Service::Print), &payload, &mut msgs);
            result = hello_result(control == Control::Ready);
        }
    }
    assert_eq!(result, 1, "hostcall print should succeed");
    assert!(
        msgs.iter().any(|m| m.contains("Hello from GPU")),
        "should receive 'Hello from GPU' message, got: {msgs:?}"
    );
    assert_eq!(msgs, vec!["Hello from GPU!"]);
    // A request that the host refuses is a failure.
    let mut payload = vec![0u8; 64];
    fill_print(&mut payload, &hostcall_print_hello(&at(0, 0)).unwrap());
    let control = serve(&codes, 999, &payload, &mut msgs);
    assert_eq!(hello_result(control == Control::Ready), 0);
    assert_eq!(msgs.len(), 1);
}

#[test]
fn test_buffered_print() {
    let codes = codes();
    // Device side: twelve messages are gathered and flushed in one call.
    let mut buffer = PrintBuffer::new(1024);
    let sent: Vec<String> = (0..12).map(|i| format!("Buffered message {i}")).collect();
    for m in &sent {
        assert!(buffer.print(&m.clone().into_bytes()));
    }
    let mut payload = vec![0u8; 64];
    let mut sideband = vec![0xeeu8; 4096];
    buffer.flush(&mut payload, &mut sideband, 100);
    // Host side: the listener prints them and answers.
    let mut msgs: Vec<String> = Vec::new();
    let action = dispatch(&codes, Control::Filled, codes.code(Service::BulkPrint));
    assert_eq!(action, Dispatch::Inline(Service::BulkPrint));
    let printed = bulk_messages(&payload, &sideband);
    let has_error = printed.is_err();
    for m in printed.unwrap() {
        msgs.push(String::from_utf8(m).unwrap());
    }
    let control = answer_for(action, has_error).unwrap();
    assert_eq!(control, Control::Ready);
    let result = buffered_print_result(control == Control::Ready);
    assert_eq!(result, 1, "buffered print kernel should succeed");
    assert!(msgs.len() >= 12, "expected 12+ messages, got {}", msgs.len());
    assert_eq!(msgs, sent);
    // The buffer is empty again.
    buffer.flush(&mut payload, &mut sideband, 0);
    assert_eq!(bulk_messages(&payload, &sideband).unwrap().len(), 0);
    assert_eq!(buffered_print_result(false), 0);
}

#[test]
fn messages_name_their_block() {
    assert_eq!(hostcall_print_hello(&at(0, 0)).unwrap(), b"Hello from GPU!".to_vec());
    assert_eq!(hostcall_print_hello(&at(0, 1)), None);
    assert_eq!(hostcall_print_hello(&at(1, 0)), None);
    let text = |b| String::from_utf8(hostcall_print_multi(&at(b, 0)).unwrap()).unwrap();
    assert_eq!(text(0), "Block 0");
    assert_eq!(text(10), "Block 10");
    assert_eq!(text(105), "Block 105");
    assert_eq!(text(999), "Block 999");
    assert_eq!(text(1000), "Block 1000");
    assert_eq!(text(123_456), "Block 123456");
    assert_eq!(text(u32::MAX), "Block 4294967295");
    assert_eq!(hostcall_print_multi(&at(3, 1)), None);
    assert_eq!(sharded_print_test(&at(42, 0)).unwrap(), b"Shard 42".to_vec());
    assert_eq!((count_success(4, true), count_success(4, false)), (5, 4));
    assert_eq!(count_success(u32::MAX, true), 0);
}

#[test]
fn roots_are_exact() {
    for n in 0..5000u32 {
        let (r, _) = isqrt(n);
        assert!(r * r <= n && n < (r + 1) * (r + 1));
    }
    assert_eq!(isqrt(0), (0, 0));
    assert_eq!(isqrt(1), (1, 0));
    assert_eq!(isqrt(2), (1, 2));
    assert_eq!(isqrt(100).0, 10);
    assert_eq!(isqrt(u32::MAX).0, 65535);
}

#[test]
fn roots_are_left_by_the_first_thread() {
    let input = vec![0, 16, 17, 1_000_000, 5];
    let (mut output, mut iters) = (vec![9; 5], vec![9; 5]);
    assert_eq!(convergence_kernel(1, &input, &mut output, &mut iters, 4), None);
    assert_eq!((&output, &iters), (&vec![9; 5], &vec![9; 5]));
    let message = convergence_kernel(0, &input, &mut output, &mut iters, 4);
    assert_eq!(message, Some("convergence done"));
    assert_eq!(output, vec![0, 4, 4, 1000, 9]);
    assert_eq!((iters[0], iters[4]), (0, 9));
    let input = vec![0, 1, 2, 15, 16];
    let (mut output, mut iters, mut total) = (vec![9; 5], vec![9; 5], 7);
    let none = autonomous_pipeline_kernel(31, &input, &mut output, &mut iters, &mut total, 5);
    assert_eq!((none, total), (None, 7));
    let messages = autonomous_pipeline_kernel(0, &input, &mut output, &mut iters, &mut total, 5);
    assert_eq!(messages, Some(("autonomous pipeline start", "autonomous pipeline done")));
    assert_eq!(output, vec![0, 1, 1, 3, 4]);
    assert_eq!(iters, vec![0, 0, 2, 4, 4]);
    assert_eq!(total, 10);
}

#[test]
fn sessions_remember() {
    let (mut state, mut result) = (0, 7);
    assert_eq!(session_kernel_b(0, state, &mut result), Some("session kernel B"));
    assert_eq!(result, 0);
    assert_eq!(session_kernel_a(3, &mut state), None);
    assert_eq!(state, 0);
    assert_eq!(session_kernel_a(0, &mut state), Some("session kernel A"));
    assert_eq!(state, 0xCAFE);
    assert_eq!(session_kernel_b(1, state, &mut result), None);
    assert_eq!(result, 0);
    assert_eq!(session_kernel_b(0, state, &mut result), Some("session kernel B"));
    assert_eq!(result, 1);
}

#[test]
fn the_reader_triples_what_was_written() {
    let mut data = vec![7u32; 4];
    assert_eq!(pipeline_writer_kernel(1, &mut data, 3), None);
    assert_eq!(data, vec![7; 4]);
    assert_eq!(pipeline_writer_kernel(0, &mut data, 3), Some("pipeline writer done"));
    assert_eq!(data, vec![100, 200, 300, 7]);
    let mut result = vec![0u32; 4];
    assert_eq!(pipeline_reader_kernel(1, &data, &mut result, 3), None);
    assert_eq!(result, vec![0; 4]);
    assert_eq!(pipeline_reader_kernel(0, &data, &mut result, 3), Some("pipeline reader done"));
    assert_eq!(result, vec![300, 600, 900, 0]);
}

#[test]
fn commands_are_carried_out() {
    let codes = CommandCodes { compute: 1, print: 2, exit: 3 };
    assert_eq!(multi_cmd_kernel(0, &None, &codes), Some(CommandStep::Yield));
    let mut payload = vec![0u8; 24];
    payload[0] = 0x10;
    payload[9] = 0x20;
    payload[16] = 5;
    assert_eq!(
        multi_cmd_kernel(0, &Some((1, payload.clone())), &codes),
        Some(CommandStep::Double { input: 0x10, output: 0x2000, count: 5 })
    );
    assert_eq!(
        multi_cmd_kernel(0, &Some((2, payload.clone())), &codes),
        Some(CommandStep::Print { len: 0x10 })
    );
    let exit = Some((3, payload.clone()));
    assert_eq!(multi_cmd_kernel(0, &exit, &codes), Some(CommandStep::Exit));
    assert_eq!(multi_cmd_kernel(1, &exit, &codes), None);
    let other = Some((0, payload));
    assert_eq!(multi_cmd_kernel(0, &other, &codes), Some(CommandStep::Acknowledge));
    let mut out = vec![0; 3];
    double_words(&vec![1, 2, 3], &mut out, 2);
    assert_eq!(out, vec![2, 4, 0]);
}

fn reply(value: u64, error: u64, data: Vec<u8>) -> FileReply {
    FileReply { value, error, data }
}

#[test]
fn the_file_comes_back() {
    assert!(FileTest::start(&at(0, 1)).is_none());
    let mut t = FileTest::start(&at(0, 0)).unwrap();
    assert_eq!(t.step, FileStep::Open(OpenMode::WriteCreate));
    t.hostcall_file_test(&reply(3, 0, vec![]));
    assert_eq!(t.step, FileStep::Write(3));
    t.hostcall_file_test(&reply(25, 0, vec![]));
    assert_eq!(t.step, FileStep::Close(3));
    t.hostcall_file_test(&reply(0, 0, vec![]));
    assert_eq!(t.step, FileStep::Open(OpenMode::Read));
    t.hostcall_file_test(&reply(4, 0, vec![]));
    assert_eq!(t.step, FileStep::Read(4));
    let mut data = file_contents();
    assert_eq!(data, b"Hello from GPU file I/O!\n".to_vec());
    data.resize(48, 0);
    t.hostcall_file_test(&reply(25, 0, data));
    assert_eq!(t.step, FileStep::CloseLast(4));
    assert_eq!(t.success, 0);
    t.hostcall_file_test(&reply(0, 9, vec![]));
    assert_eq!(t.step, FileStep::Stop);
    assert_eq!((t.success, t.opened, t.written, t.read), (1, 3, 25, 25));
}

#[test]
fn a_failed_write_closes_the_file() {
    let mut t = FileTest::new();
    t.hostcall_file_test(&reply(3, 0, vec![]));
    t.hostcall_file_test(&reply(0, 5, vec![]));
    assert_eq!(t.step, FileStep::CloseAfterFailure(3));
    t.hostcall_file_test(&reply(0, 0, vec![]));
    assert_eq!(t.step, FileStep::Stop);
    assert_eq!((t.success, t.opened, t.written, t.read), (0, 3, u32::MAX, u32::MAX));
    let mut t = FileTest::new();
    t.hostcall_file_test(&reply(0, 1, vec![]));
    assert_eq!((t.step, t.opened), (FileStep::Stop, u32::MAX));
}

#[test]
fn bulk_data_comes_back() {
    let pattern = make_bulk_pattern();
    assert_eq!((pattern.len(), pattern[255], pattern[256]), (4096, 255, 0));
    assert!(BulkTest::start(&at(1, 0)).is_none());
    let mut t = BulkTest::start(&at(0, 0)).unwrap();
    t.bulk_io_test(&reply(1, 0, vec![]));
    t.bulk_io_test(&reply(4096, 0, vec![]));
    t.bulk_io_test(&reply(0, 0, vec![]));
    t.bulk_io_test(&reply(2, 0, vec![]));
    let mut broken = t;
    t.bulk_io_test(&reply(4096, 0, pattern.clone()));
    t.bulk_io_test(&reply(0, 0, vec![]));
    assert_eq!((t.success, t.written, t.read, t.contents), (1, 4096, 4096, 1));
    let mut other = pattern;
    other[17] ^= 1;
    broken.bulk_io_test(&reply(4096, 0, other));
    broken.bulk_io_test(&reply(0, 0, vec![]));
    assert_eq!((broken.success, broken.read, broken.contents), (0, 4096, 0));
    let mut short = BulkTest::new();
    short.bulk_io_test(&reply(1, 0, vec![]));
    short.bulk_io_test(&reply(100, 0, vec![]));
    assert_eq!(short.step, FileStep::CloseAfterFailure(1));
}

#[test]
fn failures_reach_the_device() {
    assert_eq!(error_propagation_test(0, 0, 1, 7, 7, 1), Some(vec![1, 1, 7, 7, 0, 3]));
    assert_eq!(error_propagation_test(0, 5, 0, 7, 0, 1), Some(vec![0, 0, 7, 0, 5, 1]));
    assert_eq!(error_propagation_test(1, 5, 0, 7, 0, 1), None);
}

#[test]
fn clocks_and_input() {
    let run = |input| hostcall_stdin_time_test(&at(0, 0), 10, 25, 7, 8, input);
    assert_eq!(hostcall_stdin_time_test(&at(1, 0), 10, 25, 7, 8, None), None);
    assert_eq!(run(Some((3, 0))), Some(vec![15, 7, 8, 1]));
    assert_eq!(run(Some((0, 0))), Some(vec![15, 7, 8, 0]));
    assert_eq!(run(Some((3, 2))), Some(vec![15, 7, 8, 0]));
    assert_eq!(run(None), Some(vec![15, 7, 8, 0]));
    assert_eq!((asks_for_input(0), asks_for_input(1)), (true, false));
}

#[test]
fn round_trips_are_counted() {
    let mut b = Bench::new(2, 3);
    b.popped(true, 4);
    b.looked(false);
    assert_eq!(b.step, BenchStep::Spin);
    b.looked(true);
    b.released();
    b.popped(true, 1);
    b.looked(false);
    b.looked(false);
    b.looked(false);
    assert_eq!(b.step, BenchStep::Release);
    b.released();
    assert_eq!(b.step, BenchStep::Stop);
    let report = b.report(100, 150);
    assert_eq!(report, [50, 5, 2]);
    let mut results = vec![0; 9];
    hostcall_latency_bench(&mut results, 1, &report);
    assert_eq!(results, vec![0, 0, 0, 50, 5, 2, 0, 0, 0]);
    hostcall_latency_bench_v2(&mut results, 2, &[1, 2, 3]);
    assert_eq!(results, vec![0, 0, 0, 50, 5, 2, 1, 2, 3]);
}

#[test]
fn an_empty_pool_ends_the_benchmark() {
    let mut b = Bench::new(2, 3);
    b.popped(false, 9);
    assert_eq!((b.step, b.exhausted, b.completed, b.retries), (BenchStep::Stop, true, 0, 0));
    assert_eq!(Bench::new(0, 3).step, BenchStep::Stop);
}

#[test]
fn threads_get_their_own_blocks() {
    let mut dev = Device::new(vec![0; 4096]);
    gpu_heap_init(&mut dev, 10, 4000);
    let mut output = vec![0u64; 32];
    for tid in [5u32, 0, 31] {
        let pos = ThreadPos { tid_x: tid, tid_y: 0, tid_z: 0, ntid_x: 32, ntid_y: 1 };
        test_multithread_malloc(&mut dev, &pos, tid, &mut output);
    }
    assert_eq!((output[5], output[0], output[31]), (16, 80, 144));
    assert_eq!(dev.mem[16], 5);
    assert_eq!(dev.mem[144], 31);
}

#[test]
fn traces_name_their_thread() {
    let e = trace_multithread_test(17);
    assert_eq!((e.level, e.message.as_str()), (TraceLevel::Info, "trace from T17"));
    let e = trace_assert_test(0);
    assert_eq!((e.level, e.message.as_str()), (TraceLevel::Debug, "assert test T0"));
    assert!(flight_recorder_test(1, 1).is_none());
    let r = flight_recorder_test(0, 1).unwrap();
    assert!(r.crashed);
    assert_eq!(r.events[3], (TraceLevel::Warn, "warning: low memory"));
    assert_eq!(r.message, "flight recorder test done");
    assert!(!flight_recorder_test(0, 0).unwrap().crashed);
    let mut marker = 0;
    assert_eq!(panic_test_kernel(&at(0, 1), &mut marker), None);
    assert_eq!(marker, 0);
    assert_eq!(panic_test_kernel(&at(0, 0), &mut marker), Some("test panic from GPU thread 0"));
    assert_eq!(marker, 1);
}

#[test]
fn programs_print_their_lines() {
    assert_eq!(std_println_test()[0], "Hello from gpu-kernel-std!");
    assert_eq!(
        std_vec_format_test(16),
        vec![
            "Vec contents: [0, 1, 4, 9, 16, 25, 36, 49, 64, 81]",
            "Vec len=10, capacity=16",
            "Hello from GPU! Vec sum = 285",
            "String from bytes: gpu-kernel-std works!",
        ]
    );
    let lines = std_alloc_stress_test();
    assert_eq!(lines[0], "Round 0: Vec[20] sum = 190");
    assert_eq!(lines[4], "Round 4: Vec[20] sum = 8190");
    assert_eq!(lines.len(), 6);
}

fn done(data: &[u8]) -> FsOutcome {
    FsOutcome::Done(data.to_vec())
}

fn failed(kind: &str, raw: Option<i32>) -> FsOutcome {
    FsOutcome::Failed { reason: "no".into(), kind: kind.into(), raw_os_error: raw }
}

#[test]
fn the_pipeline_passes() {
    let data = pipeline_data();
    let expected: String = (0..10).map(|i| format!("line {}: value={}\n", i, i * i)).collect();
    assert_eq!(data, expected.as_bytes());
    assert_eq!(
        pipeline_first_line(&data),
        format!("[PIPE] Generated {} bytes of data", expected.len())
    );
    let (step, lines, _) = std_pipeline_inner(PipeStep::Create, &data, &done(b""));
    assert_eq!((step, lines.len()), (PipeStep::Write, 0));
    let (step, lines, _) = std_pipeline_inner(step, &data, &done(b""));
    assert_eq!(lines, vec!["[PIPE] Wrote 166 bytes to gpu_pipeline_test.txt"]);
    let (step, _, _) = std_pipeline_inner(step, &data, &done(b""));
    let (step, lines, failure) = std_pipeline_inner(step, &data, &done(&data));
    assert_eq!(step, PipeStep::Stop);
    assert_eq!(
        lines,
        vec![
            "[PIPE] Read 166 bytes from gpu_pipeline_test.txt",
            "[PIPE] Verified: 10 lines, 166 bytes, 0 mismatches",
        ]
    );
    assert_eq!(std_pipeline_test(&failure), "[DONE] std pipeline test PASSED");
}

#[test]
fn the_pipeline_reports_failures() {
    let data = pipeline_data();
    let (step, lines, failure) = std_pipeline_inner(PipeStep::Write, &data, &failed("Other", None));
    assert_eq!((step, lines.len()), (PipeStep::Stop, 0));
    assert_eq!(std_pipeline_test(&failure), "[ERR] std pipeline test FAILED: no");
    let (_, _, failure) = std_pipeline_inner(PipeStep::Read, &data, &done(b"x"));
    assert_eq!(failure.unwrap(), "length mismatch");
    let mut other = data.clone();
    other[3] = b'X';
    let (_, _, failure) = std_pipeline_inner(PipeStep::Read, &data, &done(&other));
    assert_eq!(failure.unwrap(), "content mismatch");
    assert_eq!(check_read_back(&vec![0xFF], &vec![0xFF]), Err(Mismatch::NotText));
    assert_eq!(check_read_back(&b"a\nb".to_vec(), &b"a\nb".to_vec()), Ok(2));
}

#[test]
fn the_file_program_reports_each_step() {
    let next = |step, outcome: &FsOutcome| std_file_io_test(step, outcome);
    assert_eq!(next(FsStep::Create, &failed("Other", None)).1, vec!["[ERR] File::create: no"]);
    assert_eq!(next(FsStep::Create, &done(b"")).0, FsStep::Write);
    assert_eq!(next(FsStep::Write, &done(b"")).1, vec!["[OK] write_all: 27 bytes"]);
    assert_eq!(next(FsStep::Write, &failed("Other", None)).0, FsStep::Open);
    assert_eq!(next(FsStep::Open, &failed("Other", None)).0, FsStep::Stop);
    let (step, lines) = next(FsStep::Read, &done(fs_greeting().as_bytes()));
    assert_eq!(step, FsStep::OpenMissing);
    assert_eq!(
        lines,
        vec![
            "[OK] read_to_end: 27 bytes",
            "[OK] content: Hello from std::fs on GPU!",
            "[DONE] std::fs file I/O test complete",
        ]
    );
    assert_eq!(next(FsStep::Read, &done(&[0xFF])).1[1], "[ERR] content not valid UTF-8");
    assert_eq!(
        next(FsStep::OpenMissing, &failed("NotFound", Some(2))).1,
        vec!["[OK] error_kind: NotFound (correct)", "[OK] raw_os_error: Some(2)"]
    );
    assert_eq!(
        next(FsStep::OpenMissing, &failed("TimedOut", Some(-5))).1,
        vec!["[ERR] error_kind: TimedOut (expected NotFound)", "[OK] raw_os_error: Some(-5)"]
    );
    assert_eq!(
        next(FsStep::OpenMissing, &done(b"")).1,
        vec!["[ERR] expected NotFound, got Ok"]
    );
}
