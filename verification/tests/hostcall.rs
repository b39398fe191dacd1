use gpu_host::hostcall::batch::{split_messages, PrintBuffer};
use gpu_host::hostcall::buffer::{
    next_setup, setup_error, HostcallBuffer, HostcallError, Link, SetupError, SetupNext, SetupStep,
    DEFAULT_SIDEBAND_SIZE,
};
use gpu_host::hostcall::files::FdTable;
use gpu_host::hostcall::listener::{
    answer_control, answer_for, dispatch, drain, ready_packets, well_linked, Dispatch, Listener,
    Poll, SPIN_PHASE_LIMIT,
};
use gpu_host::hostcall::protocol::{
    io_error_to_category, write_error_response, Control, ErrorCategory, IoErrorKind, IoFailure,
    OpenCodes, Reply, Service, ServiceCodes,
};
use gpu_host::hostcall::queue::{IoQueue, IoRequest, IoStep};
use gpu_host::hostcall::requests::{
    bulk_messages, fill_open, fill_print, fill_words, finish_close, finish_open, finish_transfer,
    io_action, open_request, panic_message, print_message, printed_messages, put_data, put_reply,
    put_time, IoAction,
};
use gpu_host::hostcall::stdin::{copy_line, CannedStdin, StdinSource};
use gpu_host::warp::poll::OpenMode;

fn codes() -> ServiceCodes {
    ServiceCodes {
        nop: 0,
        print: 1,
        time: 2,
        panic: 3,
        open: 10,
        write: 11,
        read: 12,
        close: 13,
        stdin: 14,
        bulk_write: 20,
        bulk_read: 21,
        bulk_print: 22,
    }
}

fn open_codes() -> OpenCodes {
    OpenCodes { read: 0, write_create: 1, append: 2 }
}

fn payload() -> Vec<u8> {
    vec![0; 64]
}

#[test]
fn a_new_buffer_has_all_packets_free() {
    let buf = HostcallBuffer::new_with_sideband(3, 100);
    assert_eq!(buf.free_stack, Link::To { tag: 0, index: 0 });
    assert_eq!(buf.packets[0].next, Link::To { tag: 0, index: 1 });
    assert_eq!(buf.packets[1].next, Link::To { tag: 0, index: 2 });
    assert_eq!(buf.packets[2].next, Link::Null);
    assert_eq!(buf.ready_stack, Link::Null);
    assert_eq!((buf.doorbell, buf.shutdown, buf.num_packets, buf.warp_size), (0, 0, 3, 32));
    assert_eq!(buf.sideband_capacity, 100);
    let buf = HostcallBuffer::new(1);
    assert_eq!(buf.sideband.len(), DEFAULT_SIDEBAND_SIZE);
}

#[test]
fn shutdown_is_signalled() {
    let mut buf = HostcallBuffer::new_with_sideband(1, 0);
    buf.signal_shutdown();
    assert_eq!(buf.shutdown, 1);
}

#[test]
fn a_failed_setup_frees_what_it_holds() {
    assert_eq!(
        next_setup(SetupStep::AllocateBuffer, true),
        SetupNext::Step(SetupStep::MapBuffer)
    );
    assert_eq!(
        next_setup(SetupStep::AllocateBuffer, false),
        SetupNext::Fail { free_sideband: false, free_buffer: false, error: SetupError::CudaAlloc }
    );
    assert_eq!(
        next_setup(SetupStep::MapSideband, false),
        SetupNext::Fail { free_sideband: true, free_buffer: true, error: SetupError::CudaGetDevPtr }
    );
    assert_eq!(
        next_setup(SetupStep::AllocateSideband, false),
        SetupNext::Fail { free_sideband: false, free_buffer: true, error: SetupError::CudaAlloc }
    );
    assert_eq!(next_setup(SetupStep::Initialize, true), SetupNext::Done);
    assert!(matches!(
        setup_error(SetupError::CudaAlloc, "E".into()),
        HostcallError::CudaAlloc(r) if r == "E"
    ));
}

#[test]
fn descriptors_start_at_one_and_grow() {
    let mut table: FdTable<&str> = FdTable::new();
    assert_eq!(table.insert("a"), 1);
    assert_eq!(table.insert("b"), 2);
    assert!(table.is_open(1));
    assert_eq!(table.remove(1), Some("a"));
    assert_eq!(table.remove(1), None);
    assert!(!table.is_open(1));
    assert_eq!(table.insert("c"), 3);
}

#[test]
fn the_listener_spins_before_it_sleeps() {
    let mut l = Listener::new();
    for _ in 0..SPIN_PHASE_LIMIT {
        assert_eq!(l.poll(0, 0), Poll::Spin);
    }
    assert_eq!(l.poll(0, 0), Poll::Sleep);
    assert_eq!(l.poll(0, 1), Poll::Drain);
    assert_eq!(l.poll(0, 1), Poll::Spin);
    assert_eq!(l.poll(1, 1), Poll::Stop);
}

#[test]
fn packets_are_dispatched_by_service() {
    let c = codes();
    assert_eq!(dispatch(&c, Control::Idle, 1), Dispatch::Skip);
    assert_eq!(dispatch(&c, Control::Filled, 1), Dispatch::Inline(Service::Print));
    assert_eq!(dispatch(&c, Control::Filled, 11), Dispatch::Offload(Service::Write));
    assert_eq!(dispatch(&c, Control::Filled, 99), Dispatch::Reject);
    assert_eq!(answer_control(false), Control::Ready);
    assert_eq!(answer_control(true), Control::ReadyError);
    assert_eq!(dispatch(&c, Control::Filled, 22), Dispatch::Inline(Service::BulkPrint));
    assert_eq!(c.service(c.code(Service::BulkRead)), Some(Service::BulkRead));
    assert_eq!(c.service(c.code(Service::BulkPrint)), Some(Service::BulkPrint));
    assert_eq!(c.service(50), None);
    assert_eq!(open_codes().mode(open_codes().code(OpenMode::Append)), Some(OpenMode::Append));
    assert_eq!(open_codes().mode(9), None);
}

#[test]
fn the_ready_stack_is_walked() {
    let mut buf = HostcallBuffer::new_with_sideband(4, 0);
    buf.packets[2].next = Link::To { tag: 5, index: 0 };
    buf.packets[0].next = Link::Null;
    assert!(well_linked(&buf.packets, Link::To { tag: 1, index: 2 }));
    assert_eq!(ready_packets(&buf.packets, Link::To { tag: 1, index: 2 }), vec![2, 0]);
    assert!(!well_linked(&buf.packets, Link::To { tag: 0, index: 4 }));
    let mut round = HostcallBuffer::new_with_sideband(2, 0);
    round.packets[1].next = Link::To { tag: 0, index: 0 };
    assert!(!well_linked(&round.packets, Link::To { tag: 0, index: 0 }));
    assert_eq!(ready_packets(&buf.packets, Link::Null), Vec::<u16>::new());
}

#[test]
fn a_drained_list_answers_each_filled_packet_once() {
    let c = codes();
    let mut buf = HostcallBuffer::new_with_sideband(6, 0);
    for (i, (control, code)) in [
        (Control::Filled, c.print),
        (Control::Filled, c.write),
        (Control::Idle, c.print),
        (Control::Filled, 99),
        (Control::Filled, c.print),
        (Control::Filled, c.bulk_print),
    ]
    .into_iter()
    .enumerate()
    {
        buf.packets[i].control = control;
        buf.packets[i].service = code;
        buf.packets[i].next = Link::Null;
    }
    // Packet 4 is filled and not on the list.
    for (from, to) in [(5, 2), (2, 0), (0, 3), (3, 1)] {
        buf.packets[from].next = Link::To { tag: 0, index: to };
    }
    let plan = drain(&c, &buf.packets, Link::To { tag: 9, index: 5 });
    assert_eq!(
        plan,
        vec![
            (5, Dispatch::Inline(Service::BulkPrint)),
            (2, Dispatch::Skip),
            (0, Dispatch::Inline(Service::Print)),
            (3, Dispatch::Reject),
            (1, Dispatch::Offload(Service::Write)),
        ]
    );
    assert_eq!(drain(&c, &buf.packets, Link::Null), vec![]);
}

#[test]
fn answers_have_errors_where_something_failed() {
    for s in [Service::Nop, Service::Print, Service::Time, Service::Panic] {
        assert_eq!(answer_for(Dispatch::Inline(s), false), Some(Control::Ready));
        assert_eq!(answer_for(Dispatch::Inline(s), true), Some(Control::Ready));
    }
    for d in [Dispatch::Inline(Service::BulkPrint), Dispatch::Offload(Service::Open)] {
        assert_eq!(answer_for(d, false), Some(Control::Ready));
        assert_eq!(answer_for(d, true), Some(Control::ReadyError));
    }
    assert_eq!(answer_for(Dispatch::Reject, false), Some(Control::ReadyError));
    assert_eq!(answer_for(Dispatch::Skip, true), None);
}

#[test]
fn a_print_buffer_holds_what_fits() {
    let mut buffer = PrintBuffer::new(16);
    assert!(buffer.print(&b"abcd".to_vec()));
    assert!(!buffer.print(&b"12345".to_vec()));
    assert!(buffer.print(&b"1234".to_vec()));
    assert!(!buffer.print(&vec![]));
    let mut p = vec![7u8; 64];
    let mut sideband = vec![9u8; 20];
    buffer.flush(&mut p, &mut sideband, 2);
    assert_eq!(sideband[0..2], [9, 9]);
    assert_eq!(sideband[2..18], *b"\x04\0\0\0abcd\x04\0\0\x001234");
    assert_eq!(sideband[18..20], [9, 9]);
    assert_eq!(p[0..16], [2, 0, 0, 0, 0, 0, 0, 0, 16, 0, 0, 0, 0, 0, 0, 0]);
    assert_eq!(p[16..64], [7u8; 48]);
    assert_eq!(bulk_messages(&p, &sideband), Ok(vec![b"abcd".to_vec(), b"1234".to_vec()]));
    assert!(buffer.print(&vec![]));
}

#[test]
fn batches_beyond_the_sideband_space_are_refused() {
    let refused = Err(Reply::Failed { category: ErrorCategory::InvalidInput, errno: 0 });
    let sideband = vec![0u8; 8];
    let mut p = payload();
    for (offset, length) in [(9, 0), (8, 1), (0, 9), (u64::MAX, 2), (1, u64::MAX)] {
        fill_words(&mut p, &vec![offset, length]);
        assert_eq!(bulk_messages(&p, &sideband), refused);
        assert_eq!(printed_messages(Service::BulkPrint, &p, &sideband), refused);
    }
    fill_words(&mut p, &vec![8, 0]);
    assert_eq!(bulk_messages(&p, &sideband), Ok(vec![]));
    fill_words(&mut p, &vec![0, 8]);
    assert_eq!(bulk_messages(&p, &sideband), Ok(vec![vec![], vec![]]));
}

#[test]
fn a_batch_that_breaks_off_ends_with_what_is_there() {
    let data = b"\x02\0\0\0ab\xff\xff\xff\xffxyz".to_vec();
    assert_eq!(split_messages(&data, 0, data.len()), vec![b"ab".to_vec(), b"xyz".to_vec()]);
    assert_eq!(split_messages(&data, 0, 9), vec![b"ab".to_vec()]);
    assert_eq!(split_messages(&data, 3, 3), Vec::<Vec<u8>>::new());
}

#[test]
fn only_prints_are_printed() {
    let mut p = payload();
    fill_print(&mut p, &b"hi".to_vec());
    let none = Vec::new();
    assert_eq!(printed_messages(Service::Print, &p, &none), Ok(vec![b"hi".to_vec()]));
    for s in [Service::Nop, Service::Time, Service::Panic, Service::Write, Service::Stdin] {
        assert_eq!(printed_messages(s, &p, &none), Ok(vec![]));
    }
}

#[test]
fn messages_go_through_a_packet() {
    let mut p = payload();
    fill_print(&mut p, &b"Hello from GPU!".to_vec());
    assert_eq!(print_message(&p), b"Hello from GPU!".to_vec());
    p[0] = 200;
    assert_eq!(print_message(&p).len(), 56);
    assert_eq!(panic_message(&p, 5), "Hello");
    let mut bad = payload();
    bad[8] = 0xFF;
    assert_eq!(panic_message(&bad, 1), "<invalid UTF-8>");
}

#[test]
fn paths_go_through_a_packet() {
    let mut p = payload();
    fill_open(&mut p, &b"gpu_test_output.txt".to_vec(), 1);
    let request = open_request(&p, &open_codes()).unwrap();
    assert_eq!(request.path, "gpu_test_output.txt");
    assert_eq!(request.mode, OpenMode::WriteCreate);
    fill_open(&mut p, &b"x".to_vec(), 7);
    assert_eq!(open_request(&p, &open_codes()).unwrap_err().kind, IoErrorKind::InvalidInput);
    fill_open(&mut p, &vec![0xFF], 0);
    assert_eq!(open_request(&p, &open_codes()).unwrap_err().kind, IoErrorKind::InvalidInput);
}

#[test]
fn file_requests_need_an_open_descriptor() {
    let mut table: FdTable<u8> = FdTable::new();
    let fd = table.insert(7);
    let mut p = payload();
    fill_words(&mut p, &vec![fd, 3]);
    p[16..19].copy_from_slice(b"abc");
    match io_action(Service::Write, &p, &table, 0, &open_codes()) {
        IoAction::WriteFile { fd: 1, data } => assert_eq!(data, b"abc".to_vec()),
        _ => panic!(),
    }
    match io_action(Service::Close, &p, &table, 0, &open_codes()) {
        IoAction::CloseFile { fd: 1 } => (),
        _ => panic!(),
    }
    fill_words(&mut p, &vec![99, 3]);
    match io_action(Service::Read, &p, &table, 0, &open_codes()) {
        IoAction::Answer(Reply::Failed { category, .. }) => {
            assert_eq!(category, ErrorCategory::InvalidFd)
        }
        _ => panic!(),
    }
    match io_action(Service::Print, &p, &table, 0, &open_codes()) {
        IoAction::Refuse => (),
        _ => panic!(),
    }
}

#[test]
fn bulk_requests_stay_in_the_sideband() {
    let mut table: FdTable<u8> = FdTable::new();
    let fd = table.insert(7);
    let mut p = payload();
    fill_words(&mut p, &vec![fd, 100, 28]);
    match io_action(Service::BulkWrite, &p, &table, 128, &open_codes()) {
        IoAction::BulkWrite { fd: 1, offset: 100, length: 28 } => (),
        _ => panic!(),
    }
    for words in [vec![fd, 100, 29], vec![fd, u64::MAX, 2]] {
        fill_words(&mut p, &words);
        match io_action(Service::BulkRead, &p, &table, 128, &open_codes()) {
            IoAction::Answer(Reply::Failed { .. }) => (),
            _ => panic!(),
        }
    }
}

#[test]
fn words_leave_the_rest_alone() {
    let mut p = vec![0xEE; 64];
    fill_words(&mut p, &vec![1, 0x0203]);
    assert_eq!(&p[0..16], &[1, 0, 0, 0, 0, 0, 0, 0, 3, 2, 0, 0, 0, 0, 0, 0]);
    assert_eq!(&p[16..], &[0xEE; 48]);
}

#[test]
fn everything_handed_over_is_served() {
    let request = |index: u16| IoRequest { index, service: Service::Read };
    let mut queue = IoQueue::new();
    assert_eq!(queue.next(), IoStep::Wait);
    queue.hand_over(request(3));
    queue.hand_over(request(1));
    assert_eq!(queue.next(), IoStep::Serve(request(3)));
    queue.note_answer();
    queue.hand_over(request(2));
    queue.close();
    assert_eq!(queue.next(), IoStep::Serve(request(1)));
    queue.note_answer();
    assert_eq!(queue.next(), IoStep::Serve(request(2)));
    queue.note_answer();
    assert_eq!(queue.next(), IoStep::Leave);
    // Nothing was handed over: there is nothing to serve.
    let mut queue = IoQueue::new();
    queue.close();
    assert_eq!(queue.next(), IoStep::Leave);
}

#[test]
fn a_shutdown_stops_at_once() {
    let mut listener = Listener::new();
    assert_eq!(listener.poll(1, 5), Poll::Stop);
    assert_eq!(listener, Listener::new());
    let mut idle = Listener { last_doorbell: 0, idle_spins: u32::MAX };
    assert_eq!(idle.poll(0, 0), Poll::Sleep);
    assert_eq!(idle.idle_spins, u32::MAX);
}

#[test]
fn files_are_opened_and_closed() {
    let mut table: FdTable<u8> = FdTable::new();
    assert_eq!(finish_open(&mut table, Ok(9)), Reply::Value(1));
    let missing = IoFailure { kind: IoErrorKind::NotFound, raw_os_error: Some(2) };
    assert_eq!(
        finish_open(&mut table, Err(missing)),
        Reply::Failed { category: ErrorCategory::NotFound, errno: 2 }
    );
    assert_eq!(finish_transfer(Ok(12)), Reply::Value(12));
    let (reply, file) = finish_close(&mut table, 1);
    assert_eq!((reply, file), (Reply::Value(0), Some(9)));
    let (reply, file) = finish_close(&mut table, 1);
    assert!(matches!(reply, Reply::Failed { category: ErrorCategory::InvalidFd, .. }));
    assert_eq!(file, None);
}

#[test]
fn errors_keep_their_category_and_number() {
    assert_eq!(io_error_to_category(IoErrorKind::BrokenPipe), ErrorCategory::BrokenPipe);
    let e = IoFailure { kind: IoErrorKind::PermissionDenied, raw_os_error: Some(13) };
    assert_eq!(
        write_error_response(&e),
        Reply::Failed { category: ErrorCategory::PermissionDenied, errno: 13 }
    );
    let e = IoFailure { kind: IoErrorKind::Other, raw_os_error: None };
    assert_eq!(write_error_response(&e), Reply::Failed { category: ErrorCategory::Other, errno: 0 });
}

#[test]
fn answers_are_put_into_the_payload() {
    let mut p = payload();
    assert!(!put_reply(&mut p, &Reply::Value(0x0102), 77));
    assert_eq!(&p[0..3], &[2, 1, 0]);
    let failed = Reply::Failed { category: ErrorCategory::Other, errno: 5 };
    assert!(put_reply(&mut p, &failed, 77));
    assert_eq!(p[0], 77);
    put_data(&mut p, &b"xyz".to_vec());
    assert_eq!((p[0], &p[8..11]), (3, &b"xyz"[..]));
    assert!(!put_time(&mut p, Some((5, 6)), 99));
    assert_eq!((p[0], p[8]), (5, 6));
    assert!(!put_time(&mut p, None, 99));
    assert_eq!((p[0], p[8]), (99, 0));
}

#[test]
fn canned_input_comes_once() {
    let mut source = CannedStdin::new(b"Hello GPU stdin!\n".to_vec());
    let mut buf = vec![0u8; 5];
    assert_eq!(source.read_line_bytes(&mut buf), 5);
    assert_eq!(buf, b"Hello".to_vec());
    assert_eq!(source.read_line_bytes(&mut buf), 0);
    let mut buf = vec![9u8; 4];
    assert_eq!(copy_line(&b"ab".to_vec(), &mut buf), 2);
    assert_eq!(buf, vec![b'a', b'b', 9, 9]);
}
