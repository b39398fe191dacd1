//! What the lanes of a warp do together.

use vstd::prelude::*;

use crate::bytes::{patched, write_slot};
use crate::hostcall::buffer::PAYLOAD_BYTES;
use crate::hostcall::requests::{answered_payload, MAX_INLINE};

verus! {

/// The number of lanes.
pub const LANES: usize = 32;

/// The word that lane 0 hands to all lanes in [`test_warp_intrinsics`].
pub const BROADCAST_WORD: u32 = 0xCAFE_BABE;

/// The value of one lane, as every lane receives it.
pub fn broadcast(values: &Vec<u32>, from: usize) -> (received: Vec<u32>)
    requires
        from < values@.len(),
    ensures
        received@ == Seq::new(values@.len(), |lane: int| values@[from as int]),
{
    let mut received: Vec<u32> = Vec::new();
    for lane in 0..values.len()
        invariant
            from < values@.len(),
            received@ == Seq::new(lane as nat, |l: int| values@[from as int]),
    {
        received.push(values[from]);
        assert(received@ =~= Seq::new((lane + 1) as nat, |l: int| values@[from as int]));
    }
    received
}

/// Lane 0 hands a word to all lanes, and each lane stores what it received.
pub fn test_warp_intrinsics(output: &mut Vec<u32>)
    requires
        old(output)@.len() >= LANES,
    ensures
        final(output)@ == Seq::new(
            old(output)@.len(),
            |i: int|
                if i < 32 {
                    BROADCAST_WORD
                } else {
                    old(output)@[i]
                },
        ),
{
    let mut values: Vec<u32> = vec![0u32;LANES];
    values.set(0, BROADCAST_WORD);
    let received = broadcast(&values, 0);
    let ghost before = output@;
    for lane in 0..LANES
        invariant
            received@.len() == 32,
            forall|l: int| 0 <= l < 32 ==> received@[l] == BROADCAST_WORD,
            before.len() >= 32,
            output@ == Seq::new(
                before.len(),
                |i: int|
                    if i < lane {
                        BROADCAST_WORD
                    } else {
                        before[i]
                    },
            ),
    {
        output.set(lane, received[lane]);
        assert(output@ =~= Seq::new(
            before.len(),
            |i: int|
                if i < lane + 1 {
                    BROADCAST_WORD
                } else {
                    before[i]
                },
        ));
    }
}

/// The bytes that a lane writes, each with its place in the message: one of the front
/// part and one of the back part, as far as these reach.
pub open spec fn lane_bytes(front: Seq<u8>, back: Seq<u8>, lane: int) -> Seq<(int, u8)> {
    let a = if lane < front.len() {
        seq![(lane, front[lane])]
    } else {
        Seq::empty()
    };
    let b = if lane < back.len() {
        seq![(front.len() + lane, back[lane])]
    } else {
        Seq::empty()
    };
    a + b
}

/// A payload after the first `n` lanes have written their bytes.
pub open spec fn after_lanes(payload: Seq<u8>, front: Seq<u8>, back: Seq<u8>, n: int) -> Seq<u8> {
    Seq::new(
        payload.len(),
        |i: int|
            if 8 <= i < 8 + front.len() && i - 8 < n {
                front[i - 8]
            } else if 8 + front.len() <= i < 8 + front.len() + back.len() && i - 8 - front.len()
                < n {
                back[i - 8 - front.len()]
            } else {
                payload[i]
            },
    )
}

/// All lanes write a message of two parts into a payload: lane 0 its length, and every
/// lane one byte of each part. The message then stands there whole.
pub fn write_together(payload: &mut Vec<u8>, front: &Vec<u8>, back: &Vec<u8>)
    requires
        old(payload)@.len() == PAYLOAD_BYTES,
        front@.len() <= LANES,
        back@.len() <= LANES,
        front@.len() + back@.len() <= MAX_INLINE,
    ensures
        final(payload)@ == patched(
            answered_payload(old(payload)@, (front@.len() + back@.len()) as u64),
            8,
            front@ + back@,
        ),
{
    write_slot(payload, 0, (front.len() + back.len()) as u64);
    let ghost before = payload@;
    assert(payload@ =~= after_lanes(before, front@, back@, 0));
    for lane in 0..LANES
        invariant
            before.len() == PAYLOAD_BYTES,
            front@.len() <= LANES,
            back@.len() <= LANES,
            front@.len() + back@.len() <= MAX_INLINE,
            payload@ == after_lanes(before, front@, back@, lane as int),
    {
        if lane < front.len() {
            payload.set(8 + lane, front[lane]);
        }
        if lane < back.len() {
            payload.set(8 + front.len() + lane, back[lane]);
        }
        assert(payload@ =~= after_lanes(before, front@, back@, lane + 1));
    }
    assert(payload@ =~= patched(before, 8, front@ + back@));
}

/// No two lanes write to the same place.
pub proof fn lanes_write_apart(front: Seq<u8>, back: Seq<u8>, a: int, b: int, i: int, j: int)
    requires
        0 <= a < 32,
        0 <= b < 32,
        a != b,
        0 <= i < lane_bytes(front, back, a).len(),
        0 <= j < lane_bytes(front, back, b).len(),
    ensures
        lane_bytes(front, back, a)[i].0 != lane_bytes(front, back, b)[j].0,
{
}

} // verus!
