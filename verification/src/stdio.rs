//! Standard output and input of device code.
//!
//! Output goes to the host in pieces that fit one packet. The print service
//! answers each piece, and the first failure ends a write early.

use vstd::prelude::*;

verus! {

/// How many bytes one packet carries.
pub const MAX_CHUNK: usize = 56;

/// Where output goes: the address of the host-call buffer, or zero before it is set.
pub struct Stdio {
    pub hostcall_buf: u64,
}

/// Sets the host-call buffer.
pub fn stdio_init(stdio: &mut Stdio, buf: u64)
    ensures
        final(stdio).hostcall_buf == buf,
{
    stdio.hostcall_buf = buf;
}

/// How many packets `len` bytes take.
pub open spec fn chunk_count(len: nat) -> nat {
    (len + MAX_CHUNK - 1) as nat / MAX_CHUNK as nat
}

/// The `k`-th piece of a write.
pub open spec fn chunk(data: Seq<u8>, k: nat) -> Seq<u8> {
    let start = k * MAX_CHUNK;
    data.subrange(start, if start + MAX_CHUNK <= data.len() {
        start + MAX_CHUNK
    } else {
        data.len() as int
    })
}

/// The first `n` pieces of a write, joined.
pub open spec fn joined(data: Seq<u8>, n: nat) -> Seq<u8>
    decreases n,
{
    if n == 0 {
        Seq::empty()
    } else {
        joined(data, (n - 1) as nat) + chunk(data, (n - 1) as nat)
    }
}

/// What a write does next.
#[derive(Clone, Copy, Debug, PartialEq, Eq, Structural)]
pub enum WriteStep {
    /// Print the `len` bytes at `start`.
    Print { start: usize, len: usize },
    /// Report that so many bytes were written.
    Return(usize),
}

/// The step that follows `offset` bytes written of `len`.
pub open spec fn step_at(offset: usize, len: usize) -> WriteStep {
    if offset < len {
        WriteStep::Print {
            start: offset,
            len: if len - offset < MAX_CHUNK {
                (len - offset) as usize
            } else {
                MAX_CHUNK
            },
        }
    } else {
        WriteStep::Return(len)
    }
}

/// The first step of a write of `len` bytes. Without a host-call buffer, or without
/// data, the bytes are discarded and count as written.
pub fn begin_write(stdio: &Stdio, buf_is_null: bool, len: usize) -> (step: WriteStep)
    ensures
        step == if stdio.hostcall_buf == 0 || buf_is_null || len == 0 {
            WriteStep::Return(len)
        } else {
            step_at(0, len)
        },
{
    if stdio.hostcall_buf == 0 || buf_is_null || len == 0 {
        return WriteStep::Return(len);
    }
    let chunk_len: usize = if len < MAX_CHUNK {
        len
    } else {
        MAX_CHUNK
    };
    WriteStep::Print { start: 0, len: chunk_len }
}

/// The step that follows a piece at `start` of `chunk_len` bytes, which was printed
/// or failed.
pub fn after_print(start: usize, chunk_len: usize, len: usize, printed: bool) -> (step: WriteStep)
    requires
        start + chunk_len <= len,
    ensures
        step == if printed {
            step_at((start + chunk_len) as usize, len)
        } else {
            WriteStep::Return(start)
        },
{
    if !printed {
        return WriteStep::Return(start);
    }
    let offset: usize = start + chunk_len;
    if offset < len {
        let next: usize = if len - offset < MAX_CHUNK {
            len - offset
        } else {
            MAX_CHUNK
        };
        WriteStep::Print { start: offset, len: next }
    } else {
        WriteStep::Return(len)
    }
}

/// A write of `data` to standard output, given how the print service answers each
/// piece: the pieces that were sent, and the number of bytes reported as written.
/// Everything is reported if there is nothing to write or nowhere to write to, and
/// otherwise the bytes before the first piece that failed.
pub fn gpu_stdout_write(stdio: &Stdio, buf: Option<&Vec<u8>>, len: usize, printed: &Vec<bool>) -> (r:
    (Vec<Vec<u8>>, usize))
    requires
        stdio.hostcall_buf != 0 && len > 0 ==> (buf matches Some(b) ==> len == b@.len()
            && chunk_count(len as nat) <= printed@.len()),
    ensures
        ({
            let (sent, written) = r;
            if stdio.hostcall_buf == 0 || buf is None || len == 0 {
                sent@.len() == 0 && written == len
            } else {
                let data = buf->0@;
                let n = sent@.len();
                &&& 0 < n <= chunk_count(len as nat)
                &&& forall|k: int| 0 <= k < n ==> (#[trigger] sent@[k])@ == chunk(data, k as nat)
                &&& forall|k: int| 0 <= k < n - 1 ==> printed@[k]
                &&& if printed@[n - 1] {
                    n == chunk_count(len as nat) && written == len
                } else {
                    written == (n - 1) * MAX_CHUNK
                }
            }
        }),
{
    let mut sent: Vec<Vec<u8>> = Vec::new();
    match buf {
        None => (sent, len),
        Some(data) => {
            let mut step = begin_write(stdio, false, len);
            if stdio.hostcall_buf == 0 || len == 0 {
                return (sent, len);
            }
            let mut k: usize = 0;
            loop
                invariant
                    len == data@.len(),
                    len > 0,
                    chunk_count(len as nat) <= printed@.len(),
                    k == sent@.len(),
                    k * MAX_CHUNK < len,
                    step == step_at((k * MAX_CHUNK) as usize, len),
                    forall|j: int| 0 <= j < k ==> (#[trigger] sent@[j])@ == chunk(data@, j as nat),
                    forall|j: int| 0 <= j < k ==> printed@[j],
                    stdio.hostcall_buf != 0,
                    buf == Some(data),
                decreases len - k * MAX_CHUNK,
            {
                match step {
                    WriteStep::Return(n) => {
                        assert(false);
                        return (sent, n);
                    },
                    WriteStep::Print { start, len: chunk_len } => {
                        let mut piece: Vec<u8> = Vec::new();
                        for i in 0..chunk_len
                            invariant
                                start + chunk_len <= len == data@.len(),
                                piece@ == data@.subrange(start as int, start + i),
                        {
                            piece.push(data[start + i]);
                        }
                        assert(piece@ == chunk(data@, k as nat));
                        sent.push(piece);
                        step = after_print(start, chunk_len, len, printed[k]);
                        if !printed[k] {
                            return (sent, start);
                        }
                        k += 1;
                        if let WriteStep::Return(n) = step {
                            return (sent, n);
                        }
                    },
                }
            }
        },
    }
}

/// The pieces of a write, joined, are what was written: nothing is lost, repeated or
/// reordered.
pub proof fn pieces_join_to_the_data(data: Seq<u8>)
    ensures
        joined(data, chunk_count(data.len())) == data,
{
    lemma_joined(data, chunk_count(data.len()));
    let n = chunk_count(data.len());
    assert(n * MAX_CHUNK >= data.len());
    assert(joined(data, n) =~= data);
}

proof fn lemma_joined(data: Seq<u8>, n: nat)
    requires
        n <= chunk_count(data.len()),
    ensures
        joined(data, n) == data.take(
            if n * MAX_CHUNK <= data.len() {
                (n * MAX_CHUNK) as int
            } else {
                data.len() as int
            },
        ),
    decreases n,
{
    if n > 0 {
        lemma_joined(data, (n - 1) as nat);
        assert((n - 1) * MAX_CHUNK < data.len());
        let before = data.take(((n - 1) * MAX_CHUNK) as int);
        let end = if n * MAX_CHUNK <= data.len() {
            (n * MAX_CHUNK) as int
        } else {
            data.len() as int
        };
        assert(before + chunk(data, (n - 1) as nat) =~= data.take(end));
    } else {
        assert(joined(data, 0) =~= data.take(0));
    }
}

/// No piece is longer than a packet, and none is empty.
pub proof fn pieces_fit_into_packets(data: Seq<u8>, k: nat)
    requires
        k < chunk_count(data.len()),
    ensures
        0 < chunk(data, k).len() <= MAX_CHUNK,
{
}

/// A read from standard input. It reports the end of input.
pub fn gpu_stdin_read(out_buf: &mut Vec<u8>, _max_len: usize) -> (n: usize)
    ensures
        n == 0,
        final(out_buf)@ == old(out_buf)@,
{
    0
}

} // verus!
