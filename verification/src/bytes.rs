//! Little-endian words in byte buffers.

use vstd::prelude::*;

verus! {

/// The 32-bit word at an offset.
pub open spec fn word_at(data: Seq<u8>, at: int) -> u32 {
    (data[at] + data[at + 1] * 0x100 + data[at + 2] * 0x1_0000 + data[at + 3] * 0x100_0000) as u32
}

/// The bytes of a 32-bit word.
pub open spec fn word_bytes(w: u32) -> Seq<u8> {
    seq![
        (w % 0x100) as u8,
        (w / 0x100 % 0x100) as u8,
        (w / 0x1_0000 % 0x100) as u8,
        (w / 0x100_0000) as u8,
    ]
}

/// The 64-bit word at an offset.
pub open spec fn slot_at(data: Seq<u8>, at: int) -> u64 {
    (word_at(data, at) + word_at(data, at + 4) * 0x1_0000_0000) as u64
}

/// The bytes of a 64-bit word.
pub open spec fn slot_bytes(x: u64) -> Seq<u8> {
    word_bytes((x % 0x1_0000_0000) as u32) + word_bytes((x / 0x1_0000_0000) as u32)
}

/// A buffer with `bytes` written over what was at `at`.
pub open spec fn patched(data: Seq<u8>, at: int, bytes: Seq<u8>) -> Seq<u8> {
    Seq::new(
        data.len(),
        |i: int|
            if at <= i < at + bytes.len() {
                bytes[i - at]
            } else {
                data[i]
            },
    )
}

/// Reads a 32-bit word.
pub fn read_word(data: &[u8], at: usize) -> (r: u32)
    requires
        at + 4 <= data@.len(),
    ensures
        r == word_at(data@, at as int),
{
    data[at] as u32 + data[at + 1] as u32 * 0x100 + data[at + 2] as u32 * 0x1_0000 + data[at + 3] as u32
        * 0x100_0000
}

/// Writes a 32-bit word.
pub fn write_word(data: &mut Vec<u8>, at: usize, w: u32)
    requires
        at + 4 <= old(data)@.len(),
    ensures
        final(data)@ == patched(old(data)@, at as int, word_bytes(w)),
{
    let _len: usize = data.len();
    data.set(at, (w % 0x100) as u8);
    data.set(at + 1, (w / 0x100 % 0x100) as u8);
    data.set(at + 2, (w / 0x1_0000 % 0x100) as u8);
    data.set(at + 3, (w / 0x100_0000) as u8);
}

/// Appends a 32-bit word.
pub fn push_word(data: &mut Vec<u8>, w: u32)
    ensures
        final(data)@ == old(data)@ + word_bytes(w),
{
    data.push((w % 0x100) as u8);
    data.push((w / 0x100 % 0x100) as u8);
    data.push((w / 0x1_0000 % 0x100) as u8);
    data.push((w / 0x100_0000) as u8);
}

/// Reads a 64-bit word.
pub fn read_slot(data: &[u8], at: usize) -> (r: u64)
    requires
        at + 8 <= data@.len(),
    ensures
        r == slot_at(data@, at as int),
{
    let _len: usize = data.len();
    read_word(data, at) as u64 + read_word(data, at + 4) as u64 * 0x1_0000_0000
}

/// Writes a 64-bit word.
pub fn write_slot(data: &mut Vec<u8>, at: usize, x: u64)
    requires
        at + 8 <= old(data)@.len(),
    ensures
        final(data)@ == patched(old(data)@, at as int, slot_bytes(x)),
{
    let _len: usize = data.len();
    write_word(data, at, (x % 0x1_0000_0000) as u32);
    write_word(data, at + 4, (x / 0x1_0000_0000) as u32);
}

/// The bytes of a sequence of 32-bit words.
pub open spec fn words_bytes(words: Seq<u32>) -> Seq<u8> {
    Seq::new(4 * words.len(), |i: int| word_bytes(words[i / 4])[i % 4])
}

/// The bytes of a sequence of 32-bit words.
pub fn encode_words(words: &Vec<u32>) -> (r: Vec<u8>)
    ensures
        r@ == words_bytes(words@),
{
    let mut r: Vec<u8> = Vec::new();
    for i in 0..words.len()
        invariant
            r@ == words_bytes(words@.take(i as int)),
    {
        let ghost before = r@;
        push_word(&mut r, words[i]);
        assert(r@ =~= words_bytes(words@.take(i + 1))) by {
            assert forall|k: int| 0 <= k < r@.len() implies r@[k] == words_bytes(
                words@.take(i + 1),
            )[k] by {
                if k < 4 * i {
                    assert(r@[k] == before[k]);
                    assert(0 <= k / 4 < i);
                } else {
                    assert(k / 4 == i && k % 4 == k - 4 * i);
                }
            }
        }
    }
    assert(words@.take(words@.len() as int) =~= words@);
    r
}

/// Writes a sequence of 32-bit words.
pub fn write_words(data: &mut Vec<u8>, at: usize, words: &Vec<u32>)
    requires
        at + 4 * words@.len() <= old(data)@.len(),
    ensures
        final(data)@ == patched(old(data)@, at as int, words_bytes(words@)),
{
    let ghost before = data@;
    let size: usize = data.len();
    for i in 0..words.len()
        invariant
            size == before.len(),
            at + 4 * words@.len() <= size,
            data@ == patched(before, at as int, words_bytes(words@.take(i as int))),
    {
        let ghost mid = data@;
        write_word(data, at + 4 * i, words[i]);
        assert(data@ =~= patched(before, at as int, words_bytes(words@.take(i + 1)))) by {
            let next = words_bytes(words@.take(i + 1));
            assert forall|k: int| 0 <= k < size implies data@[k] == patched(
                before,
                at as int,
                next,
            )[k] by {
                if at + 4 * i <= k < at + 4 * i + 4 {
                    assert((k - at) / 4 == i && (k - at) % 4 == k - at - 4 * i);
                } else if at <= k < at + 4 * i {
                    assert(data@[k] == mid[k]);
                    assert(0 <= (k - at) / 4 < i);
                }
            }
        }
    }
    assert(words@.take(words@.len() as int) =~= words@);
}

/// Each word of a sequence is found at its place among the bytes.
pub proof fn words_are_read_back(words: Seq<u32>, i: int)
    requires
        0 <= i < words.len(),
    ensures
        word_at(words_bytes(words), 4 * i) == words[i],
{
    let b = words_bytes(words);
    assert((4 * i) / 4 == i && (4 * i) % 4 == 0);
    assert((4 * i + 1) / 4 == i && (4 * i + 1) % 4 == 1);
    assert((4 * i + 2) / 4 == i && (4 * i + 2) % 4 == 2);
    assert((4 * i + 3) / 4 == i && (4 * i + 3) % 4 == 3);
    word_bytes_decode(words[i]);
}

/// A word that was written is read back.
pub proof fn word_is_read_back(data: Seq<u8>, at: int, w: u32)
    requires
        0 <= at,
        at + 4 <= data.len(),
    ensures
        word_at(patched(data, at, word_bytes(w)), at) == w,
{
}

/// The word at the start of its own bytes.
pub proof fn word_bytes_decode(w: u32)
    ensures
        word_bytes(w).len() == 4,
        word_at(word_bytes(w), 0) == w,
{
}

/// A 64-bit word that was written is read back.
pub proof fn slot_is_read_back(data: Seq<u8>, at: int, x: u64)
    requires
        0 <= at,
        at + 8 <= data.len(),
    ensures
        slot_at(patched(data, at, slot_bytes(x)), at) == x,
{
    let p = patched(data, at, slot_bytes(x));
    let lo = (x % 0x1_0000_0000) as u32;
    let hi = (x / 0x1_0000_0000) as u32;
    assert(word_at(p, at) == word_at(word_bytes(lo), 0));
    assert(word_at(p, at + 4) == word_at(word_bytes(hi), 0));
    word_bytes_decode(lo);
    word_bytes_decode(hi);
}

/// A write leaves the words elsewhere as they were.
pub proof fn word_elsewhere_is_kept(data: Seq<u8>, at: int, bytes: Seq<u8>, other: int)
    requires
        0 <= at,
        at + bytes.len() <= data.len(),
        0 <= other,
        other + 4 <= data.len(),
        other + 4 <= at || at + bytes.len() <= other,
    ensures
        word_at(patched(data, at, bytes), other) == word_at(data, other),
{
}

} // verus!
