//! Programs that write files and read them back.

use vstd::prelude::*;

use crate::kernels::basic::Thread;
use crate::warp::poll::OpenMode;

verus! {

/// What the host answered: a value, an error code that is zero if all went well, and the
/// bytes that came with it.
pub struct FileReply {
    pub value: u64,
    pub error: u64,
    pub data: Vec<u8>,
}

/// What a file program does next.
#[derive(Clone, Copy, Debug, PartialEq, Eq, Structural)]
pub enum FileStep {
    /// Open the file.
    Open(OpenMode),
    /// Write the contents to the descriptor.
    Write(u64),
    /// Read from the descriptor.
    Read(u64),
    /// Close the descriptor, and go on.
    Close(u64),
    /// Close the descriptor after a failure.
    CloseAfterFailure(u64),
    /// Close the descriptor after reading.
    CloseLast(u64),
    /// The program is over.
    Stop,
}

/// The word that stands for a step that was not reached.
pub const NOT_REACHED: u32 = 0xFFFF_FFFF;

/// The file that [`FileTest`] uses.
pub open spec fn file_test_path() -> Seq<char> {
    "gpu_test_output.txt"@
}

/// What [`FileTest`] writes: `Hello from GPU file I/O!` and a line feed.
pub open spec fn file_message() -> Seq<u8> {
    seq![
        72, 101, 108, 108, 111, 32, 102, 114, 111, 109, 32, 71, 80, 85, 32, 102, 105, 108, 101,
        32, 73, 47, 79, 33, 10,
    ]
}

/// The file that [`FileTest`] uses.
pub fn file_path() -> (r: &'static str)
    ensures
        r@ == file_test_path(),
{
    "gpu_test_output.txt"
}

/// What [`FileTest`] writes.
pub fn file_contents() -> (r: Vec<u8>)
    ensures
        r@ == file_message(),
{
    let r: Vec<u8> = vec![
        72, 101, 108, 108, 111, 32, 102, 114, 111, 109, 32, 71, 80, 85, 32, 102, 105, 108, 101,
        32, 73, 47, 79, 33, 10,
    ];
    assert(r@ =~= file_message());
    r
}

/// The bytes that [`FileTest`] reads at most.
pub const READ_CAPACITY: usize = 48;

/// Writes a file, reads it back, and tells whether the contents came back.
#[derive(Clone, Copy, Debug, PartialEq, Eq, Structural)]
pub struct FileTest {
    /// What comes next.
    pub step: FileStep,
    /// Whether the contents came back.
    pub matched: bool,
    /// 1 if all went well.
    pub success: u32,
    /// The descriptor that was written to.
    pub opened: u32,
    /// The bytes written.
    pub written: u32,
    /// The bytes read.
    pub read: u32,
}

/// A program after an answer.
pub open spec fn file_next(t: FileTest, value: u64, error: u64, data: Seq<u8>) -> FileTest {
    match t.step {
        FileStep::Open(OpenMode::WriteCreate) => if error != 0 {
            FileTest { step: FileStep::Stop, ..t }
        } else {
            FileTest { step: FileStep::Write(value), opened: value as u32, ..t }
        },
        FileStep::Open(_) => if error != 0 {
            FileTest { step: FileStep::Stop, ..t }
        } else {
            FileTest { step: FileStep::Read(value), ..t }
        },
        FileStep::Write(fd) => if error != 0 {
            FileTest { step: FileStep::CloseAfterFailure(fd), ..t }
        } else {
            FileTest { step: FileStep::Close(fd), written: value as u32, ..t }
        },
        FileStep::Close(_) => if error != 0 {
            FileTest { step: FileStep::Stop, ..t }
        } else {
            FileTest { step: FileStep::Open(OpenMode::Read), ..t }
        },
        FileStep::Read(fd) => if error != 0 {
            FileTest { step: FileStep::CloseAfterFailure(fd), ..t }
        } else {
            FileTest {
                step: FileStep::CloseLast(fd),
                read: value as u32,
                matched: value == 25 && data.take(25) == file_message(),
                ..t
            }
        },
        FileStep::CloseLast(_) => FileTest {
            step: FileStep::Stop,
            success: if t.matched {
                1
            } else {
                t.success
            },
            ..t
        },
        FileStep::CloseAfterFailure(_) => FileTest { step: FileStep::Stop, ..t },
        FileStep::Stop => t,
    }
}

/// A program at its start.
pub open spec fn file_start() -> FileTest {
    FileTest {
        step: FileStep::Open(OpenMode::WriteCreate),
        matched: false,
        success: 0,
        opened: NOT_REACHED,
        written: NOT_REACHED,
        read: NOT_REACHED,
    }
}

/// Whether `data` starts with `expected`.
pub(crate) fn starts_with(data: &Vec<u8>, expected: &Vec<u8>) -> (r: bool)
    requires
        expected@.len() <= data@.len(),
    ensures
        r == (data@.take(expected@.len() as int) == expected@),
{
    for i in 0..expected.len()
        invariant
            expected@.len() <= data@.len(),
            forall|j: int| 0 <= j < i ==> data@[j] == expected@[j],
    {
        if data[i] != expected[i] {
            assert(data@.take(expected@.len() as int)[i as int] != expected@[i as int]);
            return false;
        }
    }
    assert(data@.take(expected@.len() as int) =~= expected@);
    true
}

impl FileTest {
    /// The program at its start, for the first thread of a launch. The other threads take
    /// no part.
    pub fn start(at: &Thread) -> (t: Option<FileTest>)
        requires
            at.fits(),
        ensures
            t == if at.gid() == 0 {
                Some(file_start())
            } else {
                None
            },
    {
        if at.index() == 0 {
            Some(FileTest::new())
        } else {
            None
        }
    }

    /// A program at its start.
    pub fn new() -> (t: FileTest)
        ensures
            t == file_start(),
    {
        FileTest {
            step: FileStep::Open(OpenMode::WriteCreate),
            matched: false,
            success: 0,
            opened: NOT_REACHED,
            written: NOT_REACHED,
            read: NOT_REACHED,
        }
    }

    /// Goes on after an answer. The bytes of an answer to a read are the whole read buffer.
    pub fn hostcall_file_test(&mut self, reply: &FileReply)
        requires
            old(self).step is Read ==> reply.data@.len() == READ_CAPACITY,
        ensures
            *final(self) == file_next(*old(self), reply.value, reply.error, reply.data@),
    {
        let failed: bool = reply.error != 0;
        match self.step {
            FileStep::Open(mode) => {
                if failed {
                    self.step = FileStep::Stop;
                } else if mode == OpenMode::WriteCreate {
                    self.opened = reply.value as u32;
                    self.step = FileStep::Write(reply.value);
                } else {
                    self.step = FileStep::Read(reply.value);
                }
            },
            FileStep::Write(fd) => {
                if failed {
                    self.step = FileStep::CloseAfterFailure(fd);
                } else {
                    self.written = reply.value as u32;
                    self.step = FileStep::Close(fd);
                }
            },
            FileStep::Close(_) => {
                self.step = if failed {
                    FileStep::Stop
                } else {
                    FileStep::Open(OpenMode::Read)
                };
            },
            FileStep::Read(fd) => {
                if failed {
                    self.step = FileStep::CloseAfterFailure(fd);
                } else {
                    self.read = reply.value as u32;
                    let expected = file_contents();
                    self.matched = reply.value == 25 && starts_with(&reply.data, &expected);
                    self.step = FileStep::CloseLast(fd);
                }
            },
            FileStep::CloseLast(_) => {
                if self.matched {
                    self.success = 1;
                }
                self.step = FileStep::Stop;
            },
            FileStep::CloseAfterFailure(_) => {
                self.step = FileStep::Stop;
            },
            FileStep::Stop => {},
        }
    }
}

/// An answer, as a model.
pub struct ReplyModel {
    pub value: u64,
    pub error: u64,
    pub data: Seq<u8>,
}

/// A program after a number of answers.
pub open spec fn file_after(replies: Seq<ReplyModel>) -> FileTest
    decreases replies.len(),
{
    if replies.len() == 0 {
        file_start()
    } else {
        let r = replies.last();
        file_next(file_after(replies.drop_last()), r.value, r.error, r.data)
    }
}

/// What a program has seen when it stands at a step.
proof fn lemma_file_history(replies: Seq<ReplyModel>)
    ensures
        ({
            let t = file_after(replies);
            &&& t.step == FileStep::Open(OpenMode::WriteCreate) <==> replies.len() == 0
            &&& t.step is Write ==> replies.len() == 1
            &&& t.step is Close ==> replies.len() == 2
            &&& t.step == FileStep::Open(OpenMode::Read) ==> replies.len() == 3
            &&& t.step is Read ==> replies.len() == 4
            &&& t.step is CloseLast ==> replies.len() == 5 && t.matched == (replies[4].value == 25
                && replies[4].data.take(25) == file_message())
            &&& !(t.step is CloseLast || t.step is Stop) ==> !t.matched
            &&& t.step != FileStep::Stop ==> t.success == 0
            &&& t.step != FileStep::Open(OpenMode::Append)
            &&& t.success == 1 ==> replies.len() >= 6 && replies[4].value == 25
                && replies[4].data.take(25) == file_message()
        }),
    decreases replies.len(),
{
    if replies.len() > 0 {
        let front = replies.drop_last();
        lemma_file_history(front);
        assert(forall|i: int| 0 <= i < front.len() ==> front[i] == replies[i]);
    }
}

/// The program reports success only if the read gave back what was written.
pub proof fn success_means_read_back(replies: Seq<ReplyModel>)
    requires
        file_after(replies).success == 1,
    ensures
        replies.len() >= 6,
        replies[4].value == 25,
        replies[4].data.take(25) == file_message(),
{
    lemma_file_history(replies);
}

/// The program reports success if every call goes well and the contents come back.
pub proof fn good_answers_mean_success(replies: Seq<ReplyModel>)
    requires
        replies.len() == 6,
        forall|i: int| 0 <= i < 6 ==> (#[trigger] replies[i]).error == 0,
        replies[4].value == 25,
        replies[4].data.take(25) == file_message(),
    ensures
        file_after(replies).success == 1,
        file_after(replies).step == FileStep::Stop,
        file_after(replies).opened == replies[0].value as u32,
        file_after(replies).written == replies[1].value as u32,
        file_after(replies).read == 25,
{
    assert(file_after(replies.take(0)) == file_start());
    assert(replies.take(1).drop_last() =~= replies.take(0));
    assert(replies.take(2).drop_last() =~= replies.take(1));
    assert(replies.take(3).drop_last() =~= replies.take(2));
    assert(replies.take(4).drop_last() =~= replies.take(3));
    assert(replies.take(5).drop_last() =~= replies.take(4));
    assert(replies.drop_last() =~= replies.take(5));
    let t1 = file_after(replies.take(1));
    assert(t1.step == FileStep::Write(replies[0].value));
    let t2 = file_after(replies.take(2));
    assert(t2.step == FileStep::Close(replies[0].value));
    let t3 = file_after(replies.take(3));
    assert(t3.step == FileStep::Open(OpenMode::Read));
    let t4 = file_after(replies.take(4));
    assert(t4.step == FileStep::Read(replies[3].value));
    let t5 = file_after(replies.take(5));
    assert(t5.step == FileStep::CloseLast(replies[3].value) && t5.matched);
}

/// The bytes that the bulk program moves.
pub const BULK_SIZE: usize = 4096;

/// The pattern that the bulk program writes: the bytes from 0 to 255, again and again.
pub open spec fn bulk_pattern() -> Seq<u8> {
    Seq::new(4096, |i: int| (i % 256) as u8)
}

/// The pattern that the bulk program writes.
pub fn make_bulk_pattern() -> (r: Vec<u8>)
    ensures
        r@ == bulk_pattern(),
{
    let mut r: Vec<u8> = Vec::new();
    for i in 0..BULK_SIZE
        invariant
            r@ == bulk_pattern().take(i as int),
    {
        r.push((i % 256) as u8);
        assert(r@ =~= bulk_pattern().take(i + 1));
    }
    assert(r@ =~= bulk_pattern());
    r
}

/// The file that the bulk program uses.
pub fn bulk_path() -> (r: &'static str)
    ensures
        r@ == "gpu_bulk_test.bin"@,
{
    "gpu_bulk_test.bin"
}

/// Writes the pattern to a file in bulk and reads it back.
#[derive(Clone, Copy, Debug, PartialEq, Eq, Structural)]
pub struct BulkTest {
    /// What comes next.
    pub step: FileStep,
    /// Whether the pattern came back.
    pub matched: bool,
    /// 1 if all went well.
    pub success: u32,
    /// The bytes written.
    pub written: u32,
    /// The bytes read.
    pub read: u32,
    /// 1 if the contents came back.
    pub contents: u32,
}

/// A program at its start.
pub open spec fn bulk_start() -> BulkTest {
    BulkTest {
        step: FileStep::Open(OpenMode::WriteCreate),
        matched: false,
        success: 0,
        written: 0,
        read: 0,
        contents: 0,
    }
}

/// A program after an answer. A bulk transfer answers with the bytes it moved, and has no
/// error of its own.
pub open spec fn bulk_next(t: BulkTest, value: u64, error: u64, data: Seq<u8>) -> BulkTest {
    match t.step {
        FileStep::Open(OpenMode::WriteCreate) => if error != 0 {
            BulkTest { step: FileStep::Stop, ..t }
        } else {
            BulkTest { step: FileStep::Write(value), ..t }
        },
        FileStep::Open(_) => if error != 0 {
            BulkTest { step: FileStep::Stop, ..t }
        } else {
            BulkTest { step: FileStep::Read(value), ..t }
        },
        FileStep::Write(fd) => BulkTest {
            step: if value == 4096 {
                FileStep::Close(fd)
            } else {
                FileStep::CloseAfterFailure(fd)
            },
            written: value as u32,
            ..t
        },
        FileStep::Close(_) => BulkTest { step: FileStep::Open(OpenMode::Read), ..t },
        FileStep::Read(fd) => BulkTest {
            step: if value == 4096 {
                FileStep::CloseLast(fd)
            } else {
                FileStep::CloseAfterFailure(fd)
            },
            read: value as u32,
            matched: value == 4096 && data == bulk_pattern(),
            ..t
        },
        FileStep::CloseLast(_) => BulkTest {
            step: FileStep::Stop,
            success: if t.matched {
                1
            } else {
                t.success
            },
            contents: if t.matched {
                1
            } else {
                t.contents
            },
            ..t
        },
        FileStep::CloseAfterFailure(_) => BulkTest { step: FileStep::Stop, ..t },
        FileStep::Stop => t,
    }
}

impl BulkTest {
    /// The program at its start, for the first thread of a launch. The other threads take
    /// no part.
    pub fn start(at: &Thread) -> (t: Option<BulkTest>)
        requires
            at.fits(),
        ensures
            t == if at.gid() == 0 {
                Some(bulk_start())
            } else {
                None
            },
    {
        if at.index() == 0 {
            Some(BulkTest::new())
        } else {
            None
        }
    }

    /// A program at its start.
    pub fn new() -> (t: BulkTest)
        ensures
            t == bulk_start(),
    {
        BulkTest {
            step: FileStep::Open(OpenMode::WriteCreate),
            matched: false,
            success: 0,
            written: 0,
            read: 0,
            contents: 0,
        }
    }

    /// Goes on after an answer. The bytes of an answer to a read are the whole read buffer.
    pub fn bulk_io_test(&mut self, reply: &FileReply)
        requires
            old(self).step is Read ==> reply.data@.len() == BULK_SIZE,
        ensures
            *final(self) == bulk_next(*old(self), reply.value, reply.error, reply.data@),
    {
        match self.step {
            FileStep::Open(mode) => {
                if reply.error != 0 {
                    self.step = FileStep::Stop;
                } else if mode == OpenMode::WriteCreate {
                    self.step = FileStep::Write(reply.value);
                } else {
                    self.step = FileStep::Read(reply.value);
                }
            },
            FileStep::Write(fd) => {
                self.written = reply.value as u32;
                self.step = if reply.value == 4096 {
                    FileStep::Close(fd)
                } else {
                    FileStep::CloseAfterFailure(fd)
                };
            },
            FileStep::Close(_) => {
                self.step = FileStep::Open(OpenMode::Read);
            },
            FileStep::Read(fd) => {
                self.read = reply.value as u32;
                let expected = make_bulk_pattern();
                assert(reply.data@.take(4096) =~= reply.data@);
                self.matched = reply.value == 4096 && starts_with(&reply.data, &expected);
                self.step = if reply.value == 4096 {
                    FileStep::CloseLast(fd)
                } else {
                    FileStep::CloseAfterFailure(fd)
                };
            },
            FileStep::CloseLast(_) => {
                if self.matched {
                    self.contents = 1;
                    self.success = 1;
                }
                self.step = FileStep::Stop;
            },
            FileStep::CloseAfterFailure(_) => {
                self.step = FileStep::Stop;
            },
            FileStep::Stop => {},
        }
    }
}

/// A program after a number of answers.
pub open spec fn bulk_after(replies: Seq<ReplyModel>) -> BulkTest
    decreases replies.len(),
{
    if replies.len() == 0 {
        bulk_start()
    } else {
        let r = replies.last();
        bulk_next(bulk_after(replies.drop_last()), r.value, r.error, r.data)
    }
}

proof fn lemma_bulk_history(replies: Seq<ReplyModel>)
    ensures
        ({
            let t = bulk_after(replies);
            &&& t.step == FileStep::Open(OpenMode::WriteCreate) <==> replies.len() == 0
            &&& t.step is Write ==> replies.len() == 1
            &&& t.step is Close ==> replies.len() == 2
            &&& t.step == FileStep::Open(OpenMode::Read) ==> replies.len() == 3
            &&& t.step is Read ==> replies.len() == 4
            &&& t.step is CloseLast ==> replies.len() == 5 && t.matched == (replies[4].value
                == 4096 && replies[4].data == bulk_pattern())
            &&& t.step != FileStep::Stop ==> t.success == 0
            &&& t.step != FileStep::Open(OpenMode::Append)
            &&& t.contents == t.success
            &&& t.success == 1 ==> replies.len() >= 6 && replies[4].value == 4096
                && replies[4].data == bulk_pattern()
        }),
    decreases replies.len(),
{
    if replies.len() > 0 {
        let front = replies.drop_last();
        lemma_bulk_history(front);
        assert(forall|i: int| 0 <= i < front.len() ==> front[i] == replies[i]);
    }
}

/// The bulk program reports success only if the pattern came back whole.
pub proof fn bulk_success_means_read_back(replies: Seq<ReplyModel>)
    requires
        bulk_after(replies).success == 1,
    ensures
        replies.len() >= 6,
        replies[4].value == 4096,
        replies[4].data == bulk_pattern(),
{
    lemma_bulk_history(replies);
}

/// A descriptor that is never given out.
pub const BAD_FD: u64 = 99999;

/// The file that does not exist.
pub fn missing_path() -> (r: &'static str)
    ensures
        r@ == "__nonexistent_file_12345__"@,
{
    "__nonexistent_file_12345__"
}

/// One if a condition holds.
pub open spec fn one_if(c: bool) -> u32 {
    if c {
        1
    } else {
        0
    }
}

/// What the error program leaves: whether all three failures were seen, the three error
/// codes, the descriptor of the failed open, and how many failures were seen. The open must
/// fail because there is no such file; the close and the read of a bad descriptor must fail
/// for any reason.
pub open spec fn error_words(fd: u64, open: u64, close: u64, read: u64, not_found: u64) -> Seq<
    u32,
> {
    let passed = one_if(open == not_found) + one_if(close != 0) + one_if(read != 0);
    seq![
        one_if(passed == 3),
        open as u32,
        close as u32,
        read as u32,
        fd as u32,
        passed as u32,
    ]
}

/// What the first thread of the error program leaves. The others leave nothing.
pub fn error_propagation_test(
    tid: u32,
    fd: u64,
    open: u64,
    close: u64,
    read: u64,
    not_found: u64,
) -> (words: Option<Vec<u32>>)
    ensures
        match words {
            Some(r) => tid == 0 && r@ == error_words(fd, open, close, read, not_found),
            None => tid != 0,
        },
{
    if tid != 0 {
        return None;
    }
    let mut passed: u32 = 0;
    if open == not_found {
        passed += 1;
    }
    if close != 0 {
        passed += 1;
    }
    if read != 0 {
        passed += 1;
    }
    let mut r: Vec<u32> = Vec::new();
    r.push(if passed == 3 { 1 } else { 0 });
    r.push(open as u32);
    r.push(close as u32);
    r.push(read as u32);
    r.push(fd as u32);
    r.push(passed);
    assert(r@ =~= error_words(fd, open, close, read, not_found));
    Some(r)
}

/// What the clock program leaves: the nanoseconds that passed on the device, the host's
/// time, and whether input came.
pub open spec fn clock_words(
    start: u64,
    end: u64,
    secs: u64,
    nanos: u64,
    input: Option<(u64, u64)>,
) -> Seq<u64> {
    seq![
        (end - start) as u64,
        secs,
        nanos,
        match input {
            Some((bytes, error)) => if error == 0 && bytes > 0 {
                1
            } else {
                0
            },
            None => 0,
        },
    ]
}

/// What the first thread of the clock program leaves. Input is asked for unless `skip_stdin` is set; its answer
/// is the number of bytes and an error code.
pub fn hostcall_stdin_time_test(
    at: &Thread,
    start: u64,
    end: u64,
    secs: u64,
    nanos: u64,
    input: Option<(u64, u64)>,
) -> (words: Option<Vec<u64>>)
    requires
        at.fits(),
        start <= end,
    ensures
        match words {
            Some(r) => at.gid() == 0 && r@ == clock_words(start, end, secs, nanos, input),
            None => at.gid() != 0,
        },
{
    if at.index() != 0 {
        return None;
    }
    let came: u64 = match input {
        Some((bytes, error)) => if error == 0 && bytes > 0 {
            1
        } else {
            0
        },
        None => 0,
    };
    let mut r: Vec<u64> = Vec::new();
    r.push(end - start);
    r.push(secs);
    r.push(nanos);
    r.push(came);
    assert(r@ =~= clock_words(start, end, secs, nanos, input));
    Some(r)
}

/// Whether the clock program asks for input.
pub fn asks_for_input(skip_stdin: u32) -> (r: bool)
    ensures
        r == (skip_stdin == 0),
{
    skip_stdin == 0
}

} // verus!
