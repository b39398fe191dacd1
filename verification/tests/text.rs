use gpu_host::bytes::{
    encode_words, push_word, read_slot, read_word, write_slot, write_word, write_words,
};
use gpu_host::error::GpuHostError;
use gpu_host::hostcall::buffer::HostcallError;
use gpu_host::stdio::{
    after_print, begin_write, gpu_stdin_read, gpu_stdout_write, stdio_init, Stdio, WriteStep,
};
use gpu_host::text::{
    append, bytes_less, count_lines, decimal_text, list_text, to_decimal, trim,
};

#[test]
fn words_are_little_endian() {
    let mut data = vec![0u8; 16];
    write_word(&mut data, 1, 0x0403_0201);
    assert_eq!(&data[0..6], &[0, 1, 2, 3, 4, 0]);
    assert_eq!(read_word(&data, 1), 0x0403_0201);
    write_slot(&mut data, 8, 0x0807_0605_0403_0201);
    assert_eq!(&data[8..16], &[1, 2, 3, 4, 5, 6, 7, 8]);
    assert_eq!(read_slot(&data, 8), 0x0807_0605_0403_0201);
    let mut out = vec![9];
    push_word(&mut out, 258);
    assert_eq!(out, vec![9, 2, 1, 0, 0]);
    assert_eq!(encode_words(&vec![1, 0x100]), vec![1, 0, 0, 0, 0, 1, 0, 0]);
    write_words(&mut data, 0, &vec![7, 8]);
    assert_eq!(&data[0..8], &[7, 0, 0, 0, 8, 0, 0, 0]);
}

#[test]
fn numbers_in_decimal() {
    assert_eq!(to_decimal(0), b"0".to_vec());
    assert_eq!(to_decimal(1070), b"1070".to_vec());
    assert_eq!(decimal_text(u64::MAX), "18446744073709551615");
    assert_eq!(list_text(&vec![]), "[]");
    assert_eq!(list_text(&vec![768, 2304, 1]), "[768, 2304, 1]");
}

#[test]
fn lines_are_counted() {
    assert_eq!(count_lines(b""), 0);
    assert_eq!(count_lines(b"one"), 1);
    assert_eq!(count_lines(b"one\ntwo\n"), 2);
    assert_eq!(count_lines(b"one\ntwo\nthree"), 3);
    assert_eq!(count_lines(b"\n\n"), 2);
}

#[test]
fn bytes_are_ordered() {
    assert!(bytes_less(b"a", b"b"));
    assert!(bytes_less(b"a", b"ab"));
    assert!(!bytes_less(b"b", b"ab"));
    assert!(!bytes_less(b"a", b"a"));
    let mut out = b"x".to_vec();
    append(&mut out, b"yz");
    assert_eq!(out, b"xyz".to_vec());
}

#[test]
fn white_space_is_trimmed() {
    for text in ["", " ", "\t a b \n", "abc", "\u{3000}x\u{a0}", "\u{200b}x "] {
        assert_eq!(trim(text), text.trim());
    }
}

#[test]
fn output_goes_out_in_pieces() {
    let mut stdio = Stdio { hostcall_buf: 0 };
    stdio_init(&mut stdio, 0x1000);
    let data: Vec<u8> = (0..130).collect();
    let (sent, written) = gpu_stdout_write(&stdio, Some(&data), 130, &vec![true, true, true]);
    assert_eq!(written, 130);
    assert_eq!(sent.iter().map(|p| p.len()).collect::<Vec<_>>(), vec![56, 56, 18]);
    assert_eq!(sent.concat(), data);
}

#[test]
fn a_failed_piece_ends_the_output() {
    let stdio = Stdio { hostcall_buf: 1 };
    let data: Vec<u8> = vec![7; 130];
    let (sent, written) = gpu_stdout_write(&stdio, Some(&data), 130, &vec![true, false, true]);
    assert_eq!((sent.len(), written), (2, 56));
    let (sent, written) = gpu_stdout_write(&stdio, Some(&data), 130, &vec![false, true, true]);
    assert_eq!((sent.len(), written), (1, 0));
}

#[test]
fn output_to_nowhere_is_dropped() {
    let stdio = Stdio { hostcall_buf: 0 };
    let data: Vec<u8> = vec![7; 10];
    assert_eq!(gpu_stdout_write(&stdio, Some(&data), 10, &vec![]), (vec![], 10));
    let stdio = Stdio { hostcall_buf: 1 };
    assert_eq!(gpu_stdout_write(&stdio, None, 10, &vec![]), (vec![], 10));
    assert_eq!(gpu_stdout_write(&stdio, Some(&data), 0, &vec![]), (vec![], 0));
    assert_eq!(begin_write(&stdio, false, 0), WriteStep::Return(0));
    assert_eq!(begin_write(&stdio, false, 60), WriteStep::Print { start: 0, len: 56 });
    assert_eq!(after_print(0, 56, 60, true), WriteStep::Print { start: 56, len: 4 });
    assert_eq!(after_print(56, 4, 60, true), WriteStep::Return(60));
    assert_eq!(after_print(56, 4, 60, false), WriteStep::Return(56));
}

#[test]
fn input_is_at_its_end() {
    let mut buf = vec![1, 2, 3];
    assert_eq!(gpu_stdin_read(&mut buf, 3), 0);
    assert_eq!(buf, vec![1, 2, 3]);
}

#[test]
fn errors_say_what_went_wrong() {
    let text = |e: GpuHostError| e.message();
    assert_eq!(text(GpuHostError::CudaInit("x".into())), "CUDA device init failed: x");
    assert_eq!(text(GpuHostError::CudaAlloc("x".into())), "cuMemHostAlloc failed: x");
    assert_eq!(
        text(GpuHostError::CudaGetDevPtr("x".into())),
        "cuMemHostGetDevicePointer_v2 failed: x"
    );
    assert_eq!(text(GpuHostError::CudaFreeMem("x".into())), "cuMemFreeHost failed: x");
    assert_eq!(text(GpuHostError::Cudarc("x".into())), "cudarc error: x");
    assert_eq!(text(GpuHostError::KernelNotFound("k")), "kernel function not found: k");
    assert_eq!(
        text(GpuHostError::Verification { test: "t", detail: "d".into() }),
        "t: verification failed: d"
    );
    assert_eq!(text(GpuHostError::Timeout { test: "t", detail: "d".into() }), "t: timeout: d");
    assert_eq!(
        text(GpuHostError::Hostcall(HostcallError::CudaAlloc("x".into()))),
        "hostcall error: cuMemHostAlloc failed: x"
    );
    assert_eq!(
        HostcallError::CudaGetDevPtr("x".into()).message(),
        "cuMemHostGetDevicePointer_v2 failed: x"
    );
}
