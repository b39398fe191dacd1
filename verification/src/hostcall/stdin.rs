//! Where the host's answers to stdin requests come from.

use vstd::prelude::*;

verus! {

/// A source of standard input.
pub trait StdinSource {
    /// Reads at most as many bytes as the buffer holds into its front, and reports how
    /// many.
    fn read_line_bytes(&mut self, buf: &mut Vec<u8>) -> (n: usize)
        ensures
            final(buf)@.len() == old(buf)@.len(),
            n <= old(buf)@.len(),
    ;
}

/// Input that is there from the start: the first read gets it, and every later read gets
/// nothing.
pub struct CannedStdin {
    pub data: Vec<u8>,
    pub consumed: bool,
}

impl CannedStdin {
    pub fn new(data: Vec<u8>) -> (r: CannedStdin)
        ensures
            r.data@ == data@,
            !r.consumed,
    {
        CannedStdin { data, consumed: false }
    }

    /// How many bytes a read into `room` bytes gets.
    pub open spec fn available(&self, room: nat) -> nat {
        if self.consumed {
            0
        } else if self.data@.len() < room {
            self.data@.len()
        } else {
            room
        }
    }
}

/// A buffer whose front was overwritten with the front of `data`.
pub open spec fn fronted(buf: Seq<u8>, data: Seq<u8>, n: int) -> Seq<u8> {
    data.take(n) + buf.skip(n)
}

/// Copies as much of a line as fits into the front of a buffer, and reports how much.
pub fn copy_line(line: &Vec<u8>, buf: &mut Vec<u8>) -> (n: usize)
    ensures
        n == if line@.len() < old(buf)@.len() {
            line@.len()
        } else {
            old(buf)@.len()
        },
        final(buf)@ == fronted(old(buf)@, line@, n as int),
{
    let ghost before = buf@;
    let room: usize = buf.len();
    let n: usize = if line.len() < room {
        line.len()
    } else {
        room
    };
    for i in 0..n
        invariant
            n <= line@.len(),
            n <= before.len(),
            buf@.len() == before.len(),
            forall|j: int|
                0 <= j < before.len() ==> #[trigger] buf@[j] == if j < i {
                    line@[j]
                } else {
                    before[j]
                },
    {
        buf.set(i, line[i]);
    }
    assert(buf@ =~= fronted(before, line@, n as int));
    n
}

impl StdinSource for CannedStdin {
    fn read_line_bytes(&mut self, buf: &mut Vec<u8>) -> (n: usize)
        ensures
            n == old(self).available(old(buf)@.len()),
            final(buf)@ == fronted(old(buf)@, old(self).data@, n as int),
            final(self).consumed,
            final(self).data@ == old(self).data@,
    {
        if self.consumed {
            assert(buf@ =~= fronted(buf@, self.data@, 0));
            return 0;
        }
        self.consumed = true;
        copy_line(&self.data, buf)
    }
}

/// Input is delivered once: after a read, every read gets nothing.
pub proof fn canned_input_is_delivered_once(before: CannedStdin, after: CannedStdin, room: nat)
    requires
        after.consumed,
    ensures
        after.available(room) == 0,
        !before.consumed && before.data@.len() <= room ==> before.available(room)
            == before.data@.len(),
{
}

} // verus!
