//! Programs on top of the standard library.

use vstd::prelude::*;

use vstd::utf8::{decode_utf8, encode_utf8, valid_utf8};

use crate::text::{count_lines, decimal_chars, decimal_text, line_count, trim, trimmed, utf8_text};

verus! {

/// What lines say.
pub open spec fn said(lines: Seq<String>) -> Seq<Seq<char>> {
    Seq::new(lines.len(), |i: int| lines[i]@)
}

/// A text around a number.
pub open spec fn around(front: Seq<char>, n: nat, back: Seq<char>) -> Seq<char> {
    front + decimal_chars(n) + back
}

/// Writes a text around a number.
fn text_around(front: &str, n: u64, back: &str) -> (r: String)
    ensures
        r@ == around(front@, n as nat, back@),
{
    let mut r = front.to_string();
    let number = decimal_text(n);
    r.append(number.as_str());
    r.append(back);
    r
}

/// A line with only one text.
pub open spec fn one(line: Seq<char>) -> Seq<Seq<char>> {
    seq![line]
}

fn single(line: String) -> (r: Vec<String>)
    ensures
        said(r@) == one(line@),
{
    let mut r: Vec<String> = Vec::new();
    r.push(line);
    assert(said(r@) =~= one(line@));
    r
}

/// Adds a line.
fn say(lines: &mut Vec<String>, line: String)
    ensures
        said(final(lines)@) == said(old(lines)@).push(line@),
{
    lines.push(line);
    assert(said(lines@) =~= said(old(lines)@).push(line@));
}

/// Lines of a greeting.
pub fn std_println_test() -> (lines: Vec<String>)
    ensures
        said(lines@) == seq![
            "Hello from gpu-kernel-std!"@,
            "This uses real Rust std println!, not a custom macro."@,
        ],
{
    let mut lines = single("Hello from gpu-kernel-std!".to_string());
    say(&mut lines, "This uses real Rust std println!, not a custom macro.".to_string());
    assert(said(lines@) =~= seq![
        "Hello from gpu-kernel-std!"@,
        "This uses real Rust std println!, not a custom macro."@,
    ]);
    lines
}

/// The squares below a hundred.
pub open spec fn squares() -> Seq<usize> {
    Seq::new(10, |i: int| (i * i) as usize)
}

/// The sum of numbers.
pub open spec fn sum(v: Seq<usize>) -> nat
    decreases v.len(),
{
    if v.len() == 0 {
        0
    } else {
        sum(v.drop_last()) + v.last() as nat
    }
}

/// The lines of the formatting program. `capacity` is the room that the list of squares
/// has, which depends on the allocator.
pub open spec fn format_lines(capacity: nat) -> Seq<Seq<char>> {
    seq![
        "Vec contents: "@ + crate::text::list_chars(squares()),
        "Vec len="@ + decimal_chars(10) + ", capacity="@ + decimal_chars(capacity),
        around("Hello from GPU! Vec sum = "@, sum(squares()), Seq::empty()),
        "String from bytes: gpu-kernel-std works!"@,
    ]
}

fn make_squares() -> (r: (Vec<usize>, u64))
    ensures
        r.0@ == squares(),
        r.1 == sum(squares()),
        r.1 == 285,
{
    let mut v: Vec<usize> = Vec::new();
    let mut total: u64 = 0;
    for i in 0..10usize
        invariant
            v@ == squares().take(i as int),
            total == sum(squares().take(i as int)),
            total <= i * 81,
    {
        proof {
            assert(squares().take(i + 1).drop_last() =~= squares().take(i as int));
            assert(i * i <= 81) by (nonlinear_arith)
                requires
                    i <= 9,
            ;
            assert(squares()[i as int] == i * i);
        }
        v.push(i * i);
        total = total + (i * i) as u64;
        assert(v@ =~= squares().take(i + 1));
    }
    proof {
        assert(squares().take(10) =~= squares());
        lemma_square_sum();
    }
    (v, total)
}

proof fn lemma_square_sum()
    ensures
        sum(squares()) == 285,
{
    let s = squares();
    assert(s =~= seq![0usize, 1, 4, 9, 16, 25, 36, 49, 64, 81]);
    reveal_with_fuel(sum, 11);
    assert(s.drop_last() =~= seq![0usize, 1, 4, 9, 16, 25, 36, 49, 64]);
    assert(s.drop_last().drop_last() =~= seq![0usize, 1, 4, 9, 16, 25, 36, 49]);
    let t = seq![0usize, 1, 4, 9, 16, 25, 36, 49];
    assert(t.drop_last() =~= seq![0usize, 1, 4, 9, 16, 25, 36]);
    assert(t.drop_last().drop_last() =~= seq![0usize, 1, 4, 9, 16, 25]);
    let u = seq![0usize, 1, 4, 9, 16, 25];
    assert(u.drop_last() =~= seq![0usize, 1, 4, 9, 16]);
    assert(u.drop_last().drop_last() =~= seq![0usize, 1, 4, 9]);
    let w = seq![0usize, 1, 4, 9];
    assert(w.drop_last() =~= seq![0usize, 1, 4]);
    assert(w.drop_last().drop_last() =~= seq![0usize, 1]);
    let x = seq![0usize, 1];
    assert(x.drop_last() =~= seq![0usize]);
    assert(x.drop_last().drop_last() =~= Seq::<usize>::empty());
}

/// The lines of the formatting program.
pub fn std_vec_format_test(capacity: usize) -> (lines: Vec<String>)
    ensures
        said(lines@) == format_lines(capacity as nat),
{
    let (v, total) = make_squares();
    let list = crate::text::list_text(&v);
    let mut lines = single("Vec contents: ".to_string().concat(list.as_str()));
    let mut second = "Vec len=".to_string();
    let len = decimal_text(v.len() as u64);
    second.append(len.as_str());
    second.append(", capacity=");
    let room = decimal_text(capacity as u64);
    second.append(room.as_str());
    say(&mut lines, second);
    let number = decimal_text(total);
    say(&mut lines, "Hello from GPU! Vec sum = ".to_string().concat(number.as_str()));
    say(&mut lines, "String from bytes: gpu-kernel-std works!".to_string());
    assert("Hello from GPU! Vec sum = "@ + decimal_chars(total as nat) =~= around(
        "Hello from GPU! Vec sum = "@,
        sum(squares()),
        Seq::empty(),
    ));
    assert(said(lines@) =~= format_lines(capacity as nat));
    lines
}

/// The sum in a round: of the twenty numbers from a hundred times the round on.
pub open spec fn round_sum(round: nat) -> nat {
    190 + 2000 * round
}

/// The sum of the numbers below `n`, each with `base` added.
pub open spec fn sum_from(base: nat, n: nat) -> nat
    decreases n,
{
    if n == 0 {
        0
    } else {
        sum_from(base, (n - 1) as nat) + (n - 1) as nat + base
    }
}

proof fn lemma_sum_from(base: nat, n: nat)
    ensures
        2 * sum_from(base, n) == n * (n - 1) + 2 * (n * base),
    decreases n,
{
    if n > 0 {
        lemma_sum_from(base, (n - 1) as nat);
        assert(2 * (sum_from(base, (n - 1) as nat) + (n - 1) + base) == n * (n - 1) + 2 * (n
            * base)) by (nonlinear_arith)
            requires
                2 * sum_from(base, (n - 1) as nat) == (n - 1) * (n - 2) + 2 * ((n - 1) * base),
        ;
    } else {
        assert(n * (n - 1) == 0 && n * base == 0) by (nonlinear_arith)
            requires
                n == 0,
        ;
    }
}

/// A line of the allocation program.
pub open spec fn round_line(round: nat) -> Seq<char> {
    "Round "@ + decimal_chars(round) + ": Vec[20] sum = "@ + decimal_chars(round_sum(round))
}

/// The lines of the allocation program.
pub fn std_alloc_stress_test() -> (lines: Vec<String>)
    ensures
        said(lines@) == Seq::new(5, |i: int| round_line(i as nat)).push(
            "Alloc stress test complete — 5 rounds of alloc/drop"@,
        ),
{
    let mut lines: Vec<String> = Vec::new();
    assert(said(lines@) =~= Seq::new(0, |j: int| round_line(j as nat)));
    for i in 0..5u32
        invariant
            said(lines@) == Seq::new(i as nat, |j: int| round_line(j as nat)),
    {
        let mut total: u64 = 0;
        for x in 0..20u32
            invariant
                i < 5,
                total == sum_from((i * 100) as nat, x as nat),
                total <= x * 1000,
        {
            total = total + (x + i * 100) as u64;
        }
        proof {
            lemma_sum_from((i * 100) as nat, 20);
        }
        let mut line = "Round ".to_string();
        let round = decimal_text(i as u64);
        line.append(round.as_str());
        line.append(": Vec[20] sum = ");
        let number = decimal_text(total);
        line.append(number.as_str());
        say(&mut lines, line);
        assert(said(lines@) =~= Seq::new((i + 1) as nat, |j: int| round_line(j as nat)));
    }
    say(&mut lines, "Alloc stress test complete — 5 rounds of alloc/drop".to_string());
    lines
}

/// A line of the file that the pipeline writes.
pub open spec fn pipeline_line(i: nat) -> Seq<char> {
    "line "@ + decimal_chars(i) + ": value="@ + decimal_chars(i * i) + "\n"@
}

/// The first `n` lines of that file.
pub open spec fn pipeline_text(n: nat) -> Seq<char>
    decreases n,
{
    if n == 0 {
        Seq::empty()
    } else {
        pipeline_text((n - 1) as nat) + pipeline_line((n - 1) as nat)
    }
}

/// What the pipeline writes: ten lines.
pub open spec fn pipeline_bytes() -> Seq<u8> {
    encode_utf8(pipeline_text(10))
}

/// What the pipeline writes.
pub fn pipeline_data() -> (r: Vec<u8>)
    ensures
        r@ == pipeline_bytes(),
{
    let mut text = String::new();
    for i in 0..10u64
        invariant
            text@ == pipeline_text(i as nat),
    {
        assert(i * i <= 81) by (nonlinear_arith)
            requires
                i <= 9,
        ;
        text.append("line ");
        let number = decimal_text(i);
        text.append(number.as_str());
        text.append(": value=");
        let square = decimal_text(i * i);
        text.append(square.as_str());
        text.append("\n");
        assert(text@ =~= pipeline_text((i + 1) as nat));
    }
    vstd::slice::slice_to_vec(text.as_str().as_bytes())
}

/// Why what was read is not what was written.
#[derive(Clone, Copy, Debug, PartialEq, Eq, Structural)]
pub enum Mismatch {
    /// Their lengths differ.
    Length,
    /// Their bytes differ.
    Content,
    /// They are not text.
    NotText,
}

/// What a mismatch says.
pub open spec fn mismatch_text(m: Mismatch) -> Seq<char> {
    match m {
        Mismatch::Length => "length mismatch"@,
        Mismatch::Content => "content mismatch"@,
        Mismatch::NotText => "invalid UTF-8"@,
    }
}

/// What a mismatch says.
pub fn describe_mismatch(m: Mismatch) -> (r: String)
    ensures
        r@ == mismatch_text(m),
{
    match m {
        Mismatch::Length => "length mismatch".to_string(),
        Mismatch::Content => "content mismatch".to_string(),
        Mismatch::NotText => "invalid UTF-8".to_string(),
    }
}

/// Holds what was read against what was written, and counts its lines.
pub open spec fn read_back(data: Seq<u8>, readback: Seq<u8>) -> Result<nat, Mismatch> {
    if readback.len() != data.len() {
        Err(Mismatch::Length)
    } else if readback != data {
        Err(Mismatch::Content)
    } else if !valid_utf8(readback) {
        Err(Mismatch::NotText)
    } else {
        Ok(line_count(readback))
    }
}

/// Holds what was read against what was written, and counts its lines.
pub fn check_read_back(data: &Vec<u8>, readback: &Vec<u8>) -> (r: Result<usize, Mismatch>)
    ensures
        match r {
            Ok(lines) => read_back(data@, readback@) == Ok::<nat, Mismatch>(lines as nat),
            Err(m) => read_back(data@, readback@) == Err::<nat, Mismatch>(m),
        },
{
    if readback.len() != data.len() {
        return Err(Mismatch::Length);
    }
    if !crate::programs::files::starts_with(readback, data) {
        assert(readback@.take(data@.len() as int) =~= readback@);
        return Err(Mismatch::Content);
    }
    assert(readback@.take(data@.len() as int) =~= readback@);
    match utf8_text(readback.as_slice()) {
        None => Err(Mismatch::NotText),
        Some(_) => Ok(count_lines(readback.as_slice())),
    }
}

/// What a file operation came to: the bytes that it gave, if any, or what went wrong.
pub enum FsOutcome {
    Done(Vec<u8>),
    Failed { reason: String, kind: String, raw_os_error: Option<i32> },
}

/// What the pipeline does next.
#[derive(Clone, Copy, Debug, PartialEq, Eq, Structural)]
pub enum PipeStep {
    /// Create the file.
    Create,
    /// Write the data, and close the file.
    Write,
    /// Open the file.
    Open,
    /// Read all of it, and close the file.
    Read,
    /// The pipeline is over.
    Stop,
}

/// The file of the pipeline.
pub fn pipeline_path() -> (r: &'static str)
    ensures
        r@ == "gpu_pipeline_test.txt"@,
{
    "gpu_pipeline_test.txt"
}

/// The line before the first step.
pub fn pipeline_first_line(data: &Vec<u8>) -> (r: String)
    ensures
        r@ == around("[PIPE] Generated "@, data@.len(), " bytes of data"@),
{
    let size: usize = data.len();
    text_around("[PIPE] Generated ", size as u64, " bytes of data")
}

/// The last line of the pipeline.
pub open spec fn last_line(failure: Option<Seq<char>>) -> Seq<char> {
    match failure {
        None => "[DONE] std pipeline test PASSED"@,
        Some(reason) => "[ERR] std pipeline test FAILED: "@ + reason,
    }
}

/// What a failure says, if there is one.
pub open spec fn failure_text(failure: Option<String>) -> Option<Seq<char>> {
    match failure {
        None => None,
        Some(reason) => Some(reason@),
    }
}

/// The last line of the pipeline: whether it passed, or why it did not.
pub fn std_pipeline_test(failure: &Option<String>) -> (line: String)
    ensures
        line@ == last_line(failure_text(*failure)),
{
    match failure {
        None => "[DONE] std pipeline test PASSED".to_string(),
        Some(reason) => "[ERR] std pipeline test FAILED: ".to_string().concat(reason.as_str()),
    }
}

/// The line that tells of a checked file.
pub open spec fn verified_line(lines: nat, bytes: nat) -> Seq<char> {
    "[PIPE] Verified: "@ + decimal_chars(lines) + " lines, "@ + decimal_chars(bytes)
        + " bytes, 0 mismatches"@
}

/// The lines after what was read is held against what was written, and why the two differ.
pub open spec fn checked(data: Seq<u8>, readback: Seq<u8>) -> (
    Seq<Seq<char>>,
    Option<Seq<char>>,
) {
    let first = around("[PIPE] Read "@, readback.len(), " bytes from gpu_pipeline_test.txt"@);
    match read_back(data, readback) {
        Ok(lines) => (seq![first, verified_line(lines, data.len())], None),
        Err(m) => (one(first), Some(mismatch_text(m))),
    }
}

fn report_read_back(data: &Vec<u8>, readback: &Vec<u8>) -> (r: (Vec<String>, Option<String>))
    ensures
        (said(r.0@), failure_text(r.1)) == checked(data@, readback@),
{
    let size: usize = readback.len();
    let mut r = single(
        text_around("[PIPE] Read ", size as u64, " bytes from gpu_pipeline_test.txt"),
    );
    match check_read_back(data, readback) {
        Ok(lines) => {
            let mut line = text_around("[PIPE] Verified: ", lines as u64, " lines, ");
            let bytes = decimal_text(data.len() as u64);
            line.append(bytes.as_str());
            line.append(" bytes, 0 mismatches");
            say(&mut r, line);
            assert(said(r@) =~= checked(data@, readback@).0);
            (r, None)
        },
        Err(m) => (r, Some(describe_mismatch(m))),
    }
}

/// The next step of the pipeline, the lines it prints, and why it failed.
pub open spec fn pipe_next(step: PipeStep, data: Seq<u8>, outcome: FsOutcome) -> (
    PipeStep,
    Seq<Seq<char>>,
    Option<Seq<char>>,
) {
    match outcome {
        FsOutcome::Failed { reason, .. } => if step == PipeStep::Stop {
            (PipeStep::Stop, Seq::empty(), None)
        } else {
            (PipeStep::Stop, Seq::empty(), Some(reason@))
        },
        FsOutcome::Done(bytes) => match step {
            PipeStep::Create => (PipeStep::Write, Seq::empty(), None),
            PipeStep::Write => (
                PipeStep::Open,
                one(around("[PIPE] Wrote "@, data.len(), " bytes to gpu_pipeline_test.txt"@)),
                None,
            ),
            PipeStep::Open => (PipeStep::Read, Seq::empty(), None),
            PipeStep::Read => {
                let (lines, failure) = checked(data, bytes@);
                (PipeStep::Stop, lines, failure)
            },
            PipeStep::Stop => (PipeStep::Stop, Seq::empty(), None),
        },
    }
}

fn nothing() -> (r: Vec<String>)
    ensures
        said(r@) == Seq::<Seq<char>>::empty(),
{
    let r: Vec<String> = Vec::new();
    assert(said(r@) =~= Seq::<Seq<char>>::empty());
    r
}

/// Writes data to a file, reads it back and checks it: the next step, the lines it prints,
/// and why it failed. The first failure ends the pipeline.
pub fn std_pipeline_inner(step: PipeStep, data: &Vec<u8>, outcome: &FsOutcome) -> (r: (
    PipeStep,
    Vec<String>,
    Option<String>,
))
    ensures
        (r.0, said(r.1@), failure_text(r.2)) == pipe_next(step, data@, *outcome),
{
    match outcome {
        FsOutcome::Failed { reason, .. } => {
            if step == PipeStep::Stop {
                return (PipeStep::Stop, nothing(), None);
            }
            (PipeStep::Stop, nothing(), Some(reason.clone()))
        },
        FsOutcome::Done(bytes) => match step {
            PipeStep::Create => (PipeStep::Write, nothing(), None),
            PipeStep::Write => {
                let size: usize = data.len();
                let line = text_around(
                    "[PIPE] Wrote ",
                    size as u64,
                    " bytes to gpu_pipeline_test.txt",
                );
                (PipeStep::Open, single(line), None)
            },
            PipeStep::Open => (PipeStep::Read, nothing(), None),
            PipeStep::Read => {
                let (lines, failure) = report_read_back(data, bytes);
                (PipeStep::Stop, lines, failure)
            },
            PipeStep::Stop => (PipeStep::Stop, nothing(), None),
        },
    }
}

/// The pipeline passes if what was written is read back, and only then.
pub proof fn pipeline_passes_on_read_back(outcome: FsOutcome)
    ensures
        pipe_next(PipeStep::Read, pipeline_bytes(), outcome).2 is None <==> (
        outcome matches FsOutcome::Done(bytes) && bytes@ == pipeline_bytes()),
{
    vstd::utf8::encode_utf8_valid_utf8(pipeline_text(10));
}

/// What the file program does next.
#[derive(Clone, Copy, Debug, PartialEq, Eq, Structural)]
pub enum FsStep {
    /// Create the file.
    Create,
    /// Write the greeting, and close the file.
    Write,
    /// Open the file.
    Open,
    /// Read all of it, and close the file.
    Read,
    /// Open a file that does not exist.
    OpenMissing,
    /// The program is over.
    Stop,
}

/// The file that the file program uses.
pub fn fs_path() -> (r: &'static str)
    ensures
        r@ == "gpu_std_test.txt"@,
{
    "gpu_std_test.txt"
}

/// What the file program writes: 27 bytes.
pub fn fs_greeting() -> (r: &'static str)
    ensures
        r@ == "Hello from std::fs on GPU!\n"@,
        r@.len() == 27,
{
    proof {
        reveal_strlit("Hello from std::fs on GPU!\n");
    }
    "Hello from std::fs on GPU!\n"
}

/// The file that does not exist.
pub fn fs_missing_path() -> (r: &'static str)
    ensures
        r@ == "nonexistent_file_12345.txt"@,
{
    "nonexistent_file_12345.txt"
}

/// An optional number as text.
pub open spec fn option_chars(n: Option<i32>) -> Seq<char> {
    match n {
        None => "None"@,
        Some(n) => if n < 0 {
            "Some(-"@ + decimal_chars((-n) as nat) + ")"@
        } else {
            "Some("@ + decimal_chars(n as nat) + ")"@
        },
    }
}

fn option_text(n: Option<i32>) -> (r: String)
    ensures
        r@ == option_chars(n),
{
    match n {
        None => "None".to_string(),
        Some(n) => {
            if n < 0 {
                text_around("Some(-", (-(n as i64)) as u64, ")")
            } else {
                text_around("Some(", n as u64, ")")
            }
        },
    }
}

/// The lines after the file was read.
pub open spec fn fs_read_lines(outcome: FsOutcome) -> Seq<Seq<char>> {
    let front = match outcome {
        FsOutcome::Done(bytes) => seq![
            around("[OK] read_to_end: "@, bytes@.len(), " bytes"@),
            if valid_utf8(bytes@) {
                "[OK] content: "@ + trimmed(decode_utf8(bytes@))
            } else {
                "[ERR] content not valid UTF-8"@
            },
        ],
        FsOutcome::Failed { reason, .. } => one("[ERR] read_to_end: "@ + reason@),
    };
    front.push("[DONE] std::fs file I/O test complete"@)
}

/// The lines after the file that does not exist was opened.
pub open spec fn fs_missing_lines(outcome: FsOutcome) -> Seq<Seq<char>> {
    match outcome {
        FsOutcome::Done(_) => one("[ERR] expected NotFound, got Ok"@),
        FsOutcome::Failed { kind, raw_os_error, .. } => seq![
            if kind@ == "NotFound"@ {
                "[OK] error_kind: NotFound (correct)"@
            } else {
                "[ERR] error_kind: "@ + kind@ + " (expected NotFound)"@
            },
            "[OK] raw_os_error: "@ + option_chars(raw_os_error),
        ],
    }
}

/// The next step of the file program, and the lines it prints.
pub open spec fn fs_next(step: FsStep, outcome: FsOutcome) -> (FsStep, Seq<Seq<char>>) {
    match step {
        FsStep::Create => match outcome {
            FsOutcome::Done(_) => (FsStep::Write, Seq::empty()),
            FsOutcome::Failed { reason, .. } => (
                FsStep::Stop,
                one("[ERR] File::create: "@ + reason@),
            ),
        },
        FsStep::Write => match outcome {
            FsOutcome::Done(_) => (FsStep::Open, one("[OK] write_all: 27 bytes"@)),
            FsOutcome::Failed { reason, .. } => (
                FsStep::Open,
                one("[ERR] write_all: "@ + reason@),
            ),
        },
        FsStep::Open => match outcome {
            FsOutcome::Done(_) => (FsStep::Read, Seq::empty()),
            FsOutcome::Failed { reason, .. } => (
                FsStep::Stop,
                one("[ERR] File::open: "@ + reason@),
            ),
        },
        FsStep::Read => (FsStep::OpenMissing, fs_read_lines(outcome)),
        FsStep::OpenMissing => (FsStep::Stop, fs_missing_lines(outcome)),
        FsStep::Stop => (FsStep::Stop, Seq::empty()),
    }
}

fn report_read(outcome: &FsOutcome) -> (r: Vec<String>)
    ensures
        said(r@) == fs_read_lines(*outcome),
{
    let mut r = match outcome {
        FsOutcome::Done(bytes) => {
            let size: usize = bytes.len();
            let mut r = single(text_around("[OK] read_to_end: ", size as u64, " bytes"));
            match utf8_text(bytes.as_slice()) {
                Some(text) => {
                    let content = trim(text.as_str());
                    say(&mut r, "[OK] content: ".to_string().concat(content.as_str()));
                },
                None => say(&mut r, "[ERR] content not valid UTF-8".to_string()),
            }
            r
        },
        FsOutcome::Failed { reason, .. } => single(
            "[ERR] read_to_end: ".to_string().concat(reason.as_str()),
        ),
    };
    say(&mut r, "[DONE] std::fs file I/O test complete".to_string());
    assert(said(r@) =~= fs_read_lines(*outcome));
    r
}

fn report_missing(outcome: &FsOutcome) -> (r: Vec<String>)
    ensures
        said(r@) == fs_missing_lines(*outcome),
{
    match outcome {
        FsOutcome::Done(_) => single("[ERR] expected NotFound, got Ok".to_string()),
        FsOutcome::Failed { kind, raw_os_error, .. } => {
            let mut r = if *kind == "NotFound".to_string() {
                single("[OK] error_kind: NotFound (correct)".to_string())
            } else {
                let mut line = "[ERR] error_kind: ".to_string();
                line.append(kind.as_str());
                line.append(" (expected NotFound)");
                single(line)
            };
            let number = option_text(*raw_os_error);
            say(&mut r, "[OK] raw_os_error: ".to_string().concat(number.as_str()));
            assert(said(r@) =~= fs_missing_lines(*outcome));
            r
        },
    }
}

/// Writes a greeting to a file, reads it back, and opens a file that does not exist: the
/// next step, and the lines it prints.
pub fn std_file_io_test(step: FsStep, outcome: &FsOutcome) -> (r: (FsStep, Vec<String>))
    ensures
        (r.0, said(r.1@)) == fs_next(step, *outcome),
{
    match step {
        FsStep::Create => match outcome {
            FsOutcome::Done(_) => (FsStep::Write, nothing()),
            FsOutcome::Failed { reason, .. } => (
                FsStep::Stop,
                single("[ERR] File::create: ".to_string().concat(reason.as_str())),
            ),
        },
        FsStep::Write => match outcome {
            FsOutcome::Done(_) => (FsStep::Open, single("[OK] write_all: 27 bytes".to_string())),
            FsOutcome::Failed { reason, .. } => (
                FsStep::Open,
                single("[ERR] write_all: ".to_string().concat(reason.as_str())),
            ),
        },
        FsStep::Open => match outcome {
            FsOutcome::Done(_) => (FsStep::Read, nothing()),
            FsOutcome::Failed { reason, .. } => (
                FsStep::Stop,
                single("[ERR] File::open: ".to_string().concat(reason.as_str())),
            ),
        },
        FsStep::Read => (FsStep::OpenMissing, report_read(outcome)),
        FsStep::OpenMissing => (FsStep::Stop, report_missing(outcome)),
        FsStep::Stop => (FsStep::Stop, nothing()),
    }
}

} // verus!
