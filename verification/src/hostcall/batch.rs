//! Messages that are printed together.
//!
//! Device code gathers messages in a buffer and hands them to the host in one call. In the
//! sideband space each message stands behind its length, a little-endian word of four bytes,
//! and the next message follows at once. The layout is this module's own choice: host and
//! device need only agree on it, and both have it from here. The number of the service comes
//! from the table of codes, as that of any other service does.

use vstd::prelude::*;

use crate::bytes::{patched, push_word, read_word, slot_at, word_at, word_bytes, word_bytes_decode};
use crate::hostcall::buffer::PAYLOAD_BYTES;
use crate::hostcall::protocol::Service;
use crate::hostcall::requests::{bulk_stretch, fill_words, printed};
use crate::text::append;

verus! {

/// The bytes of a message's length.
pub const LENGTH_BYTES: usize = 4;

/// What messages hold.
pub open spec fn views(messages: Seq<Vec<u8>>) -> Seq<Seq<u8>> {
    Seq::new(messages.len(), |i: int| messages[i]@)
}

/// The bytes of a message in a batch.
pub open spec fn framed(message: Seq<u8>) -> Seq<u8> {
    word_bytes(message.len() as u32) + message
}

/// The bytes of a batch of messages.
pub open spec fn batch(messages: Seq<Seq<u8>>) -> Seq<u8>
    decreases messages.len(),
{
    if messages.len() == 0 {
        Seq::empty()
    } else {
        batch(messages.drop_last()) + framed(messages.last())
    }
}

/// How many bytes the first message of a batch has: as many as its length says, but no more
/// than there are.
pub open spec fn first_len(data: Seq<u8>) -> int {
    let stated = word_at(data, 0) as int;
    if stated < data.len() - 4 {
        stated
    } else {
        data.len() - 4
    }
}

/// The messages of a batch. Bytes at the end that are too few for a length hold none.
pub open spec fn split(data: Seq<u8>) -> Seq<Seq<u8>>
    decreases data.len(),
{
    if data.len() < 4 {
        Seq::empty()
    } else {
        let n = first_len(data);
        seq![data.subrange(4, 4 + n)] + split(data.skip(4 + n))
    }
}

/// Takes the stretch of `data` from `start` to `end` apart into its messages.
pub fn split_messages(data: &Vec<u8>, start: usize, end: usize) -> (r: Vec<Vec<u8>>)
    requires
        start <= end <= data@.len(),
    ensures
        views(r@) == split(data@.subrange(start as int, end as int)),
{
    let ghost whole = split(data@.subrange(start as int, end as int));
    let mut r: Vec<Vec<u8>> = Vec::new();
    let mut at: usize = start;
    assert(views(r@) + split(data@.subrange(at as int, end as int)) =~= whole);
    while end - at >= LENGTH_BYTES
        invariant
            start <= at <= end <= data@.len(),
            views(r@) + split(data@.subrange(at as int, end as int)) == whole,
        decreases end - at,
    {
        let ghost rest = data@.subrange(at as int, end as int);
        let ghost before = views(r@);
        let size: usize = data.len();
        let stated: u32 = read_word(data.as_slice(), at);
        assert(stated == word_at(rest, 0));
        let room: usize = end - at - LENGTH_BYTES;
        let n: usize = if (stated as u64) < room as u64 {
            stated as usize
        } else {
            room
        };
        let first: usize = at + LENGTH_BYTES;
        let mut message: Vec<u8> = Vec::new();
        for i in 0..n
            invariant
                first + n <= size == data@.len(),
                message@ == data@.subrange(first as int, first + i),
        {
            message.push(data[first + i]);
        }
        r.push(message);
        at = first + n;
        proof {
            assert(n == first_len(rest));
            assert(message@ =~= rest.subrange(4, 4 + n));
            assert(rest.skip(4 + n) =~= data@.subrange(at as int, end as int));
            assert(views(r@) =~= before.push(message@));
            assert(before.push(message@) + split(data@.subrange(at as int, end as int)) =~= before
                + (seq![message@] + split(data@.subrange(at as int, end as int))));
        }
    }
    assert(views(r@) + Seq::<Seq<u8>>::empty() =~= views(r@));
    r
}

/// A batch that starts with a message is split into that message and the rest.
proof fn lemma_split_first(message: Seq<u8>, rest: Seq<u8>)
    requires
        message.len() <= u32::MAX,
    ensures
        split(framed(message) + rest) == seq![message] + split(rest),
{
    let data = framed(message) + rest;
    let n = message.len() as int;
    word_bytes_decode(message.len() as u32);
    assert(word_at(data, 0) == word_at(word_bytes(message.len() as u32), 0));
    assert(first_len(data) == n);
    assert(data.subrange(4, 4 + n) =~= message);
    assert(data.skip(4 + n) =~= rest);
}

proof fn lemma_regroup<T>(a: Seq<T>, b: Seq<T>, c: Seq<T>)
    ensures
        (a + b) + c == a + (b + c),
{
    assert((a + b) + c =~= a + (b + c));
}

#[verifier::spinoff_prover]
proof fn lemma_split_batch(messages: Seq<Seq<u8>>, rest: Seq<u8>)
    requires
        forall|i: int| 0 <= i < messages.len() ==> (#[trigger] messages[i]).len() <= u32::MAX,
    ensures
        split(batch(messages) + rest) == messages + split(rest),
    decreases messages.len(),
{
    if messages.len() == 0 {
        assert(batch(messages) + rest =~= rest);
        assert(messages + split(rest) =~= split(rest));
    } else {
        let front = messages.drop_last();
        let last = messages.last();
        let tail = framed(last) + rest;
        assert(batch(messages) + rest == batch(front) + tail) by {
            lemma_regroup(batch(front), framed(last), rest);
        }
        assert(split(batch(front) + tail) == front + split(tail)) by {
            assert forall|i: int| 0 <= i < front.len() implies (#[trigger] front[i]).len()
                <= u32::MAX by {
                assert(front[i] == messages[i]);
            }
            lemma_split_batch(front, tail);
        }
        assert(split(tail) == seq![last] + split(rest)) by {
            assert(last == messages[messages.len() - 1]);
            lemma_split_first(last, rest);
        }
        assert(front + (seq![last] + split(rest)) == messages + split(rest)) by {
            assert(front + seq![last] =~= messages);
            lemma_regroup(front, seq![last], split(rest));
        }
    }
}

/// A batch is split into the messages that it was made of.
pub proof fn batches_come_apart(messages: Seq<Seq<u8>>)
    requires
        forall|i: int| 0 <= i < messages.len() ==> (#[trigger] messages[i]).len() <= u32::MAX,
    ensures
        split(batch(messages)) == messages,
{
    lemma_split_batch(messages, Seq::empty());
    assert(batch(messages) + Seq::empty() =~= batch(messages));
    assert(messages + split(Seq::empty()) =~= messages);
}

/// The buffer in which device code gathers messages.
pub struct PrintBuffer {
    bytes: Vec<u8>,
    capacity: usize,
    gathered: Ghost<Seq<Seq<u8>>>,
}

impl PrintBuffer {
    /// The messages in the buffer, in the order in which they came.
    pub closed spec fn messages(&self) -> Seq<Seq<u8>> {
        self.gathered@
    }

    /// How many bytes the buffer holds at most.
    pub closed spec fn room(&self) -> usize {
        self.capacity
    }

    closed spec fn content(&self) -> Seq<u8> {
        self.bytes@
    }

    /// The buffer holds the batch of its messages, which fits into it.
    pub closed spec fn wf(&self) -> bool {
        &&& self.content() == batch(self.messages())
        &&& self.content().len() <= self.room()
        &&& forall|i: int|
            0 <= i < self.messages().len() ==> (#[trigger] self.messages()[i]).len() <= u32::MAX
    }

    /// An empty buffer of `capacity` bytes.
    pub fn new(capacity: usize) -> (r: PrintBuffer)
        ensures
            r.wf(),
            r.messages() == Seq::<Seq<u8>>::empty(),
            r.room() == capacity,
    {
        let r = PrintBuffer { bytes: Vec::new(), capacity, gathered: Ghost(Seq::empty()) };
        assert(r.content() =~= batch(r.messages()));
        r
    }

    /// Puts a message into the buffer, if it fits. If not, the buffer stays as it is, and it
    /// is time to flush it.
    pub fn print(&mut self, message: &Vec<u8>) -> (fits: bool)
        requires
            old(self).wf(),
        ensures
            final(self).wf(),
            final(self).room() == old(self).room(),
            fits == (message@.len() <= u32::MAX && batch(old(self).messages()).len() + 4
                + message@.len() <= old(self).room()),
            final(self).messages() == if fits {
                old(self).messages().push(message@)
            } else {
                old(self).messages()
            },
    {
        let n: usize = message.len();
        let left: usize = self.capacity - self.bytes.len();
        if n as u64 > u32::MAX as u64 || left < LENGTH_BYTES || left - LENGTH_BYTES < n {
            return false;
        }
        let ghost start = self.bytes@;
        push_word(&mut self.bytes, n as u32);
        append(&mut self.bytes, message.as_slice());
        self.gathered = Ghost(self.gathered@.push(message@));
        proof {
            let now = self.messages();
            assert(now.drop_last() =~= old(self).messages());
            assert(now.last() == message@);
            assert(self.content() =~= start + framed(message@));
            assert forall|i: int| 0 <= i < now.len() implies (#[trigger] now[i]).len()
                <= u32::MAX by {
                if i < now.len() - 1 {
                    assert(now[i] == old(self).messages()[i]);
                }
            }
        }
        true
    }

    /// Hands all messages to the host in one call: they are put into the sideband space at
    /// `offset`, the request is filled in, and the buffer is empty again. The host prints the
    /// messages in the order in which they came.
    pub fn flush(&mut self, payload: &mut Vec<u8>, sideband: &mut Vec<u8>, offset: usize)
        requires
            old(self).wf(),
            old(payload)@.len() == PAYLOAD_BYTES,
            offset + old(self).room() <= old(sideband)@.len(),
        ensures
            final(self).wf(),
            final(self).room() == old(self).room(),
            final(self).messages() == Seq::<Seq<u8>>::empty(),
            final(payload)@.len() == PAYLOAD_BYTES,
            bulk_stretch(final(payload)@) == (
                offset as int,
                batch(old(self).messages()).len() as int,
            ),
            final(payload)@.skip(16) == old(payload)@.skip(16),
            final(sideband)@ == patched(
                old(sideband)@,
                offset as int,
                batch(old(self).messages()),
            ),
            offset + batch(old(self).messages()).len() <= final(sideband)@.len(),
            printed(Service::BulkPrint, final(payload)@, final(sideband)@) == old(self).messages(),
    {
        let len: usize = self.bytes.len();
        let size: usize = sideband.len();
        let ghost start = sideband@;
        for i in 0..len
            invariant
                len == self.bytes@.len(),
                self.bytes@ == old(self).content(),
                size == start.len(),
                offset + len <= size,
                sideband@ == patched(start, offset as int, self.bytes@.take(i as int)),
                self.capacity == old(self).room(),
        {
            sideband.set(offset + i, self.bytes[i]);
            assert(sideband@ =~= patched(start, offset as int, self.bytes@.take(i + 1)));
        }
        assert(self.bytes@.take(len as int) =~= self.bytes@);
        let words: Vec<u64> = vec![offset as u64, len as u64];
        fill_words(payload, &words);
        proof {
            let (a, b) = (0int, 1int);
            assert(slot_at(payload@, 8 * a) == words@[a]);
            assert(slot_at(payload@, 8 * b) == words@[b]);
            batches_come_apart(old(self).messages());
            assert(sideband@.subrange(offset as int, offset + len) =~= batch(
                old(self).messages(),
            ));
        }
        self.bytes = Vec::new();
        self.gathered = Ghost(Seq::empty());
        assert(self.content() =~= batch(self.messages()));
    }
}

} // verus!
