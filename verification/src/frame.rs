//! Cutting a message into frames of a fixed size.
//!
//! A frame is 256 bytes long: a count, that many bytes of the message, and zeros. A frame whose
//! count is 255 is followed by another one of the same message; any other count ends it. So a
//! message whose last chunk is full is closed by a frame that carries nothing.

use vstd::prelude::*;

verus! {

/// Size of a frame before it is sealed.
pub const FRAME_SIZE: usize = 256;

/// The most bytes of a message that one frame carries.
pub const FRAME_CAPACITY: usize = 255;

/// The bytes of each vector.
pub open spec fn contents(vectors: Seq<Vec<u8>>) -> Seq<Seq<u8>> {
    vectors.map_values(|v: Vec<u8>| v@)
}

/// How many frames a message of the given length takes.
pub open spec fn frame_count(len: nat) -> nat {
    if len == 0 {
        0
    } else {
        len / FRAME_CAPACITY as nat + 1
    }
}

/// The part of a message that its `i`-th frame carries.
pub open spec fn frame_share(data: Seq<u8>, i: int) -> Seq<u8> {
    let start = i * FRAME_CAPACITY;
    let end = start + FRAME_CAPACITY;
    data.subrange(
        start,
        if end < data.len() {
            end
        } else {
            data.len() as int
        },
    )
}

/// A frame that carries the given bytes.
pub open spec fn padded(share: Seq<u8>) -> Seq<u8> {
    seq![share.len() as u8] + share + Seq::new((FRAME_CAPACITY - share.len()) as nat, |i: int| 0u8)
}

/// The frames of a message.
pub open spec fn frames_of(data: Seq<u8>) -> Seq<Seq<u8>> {
    Seq::new(frame_count(data.len()), |i: int| padded(frame_share(data, i)))
}

/// The bytes that a frame carries.
pub open spec fn carried(frame: Seq<u8>) -> Seq<u8> {
    frame.subrange(1, 1 + frame[0])
}

/// Whether another frame of the same message follows this one.
pub open spec fn continues(frame: Seq<u8>) -> bool {
    frame[0] == FRAME_CAPACITY
}

/// Each frame of a message has the same size, and the bytes it carries are where its count says.
/// All frames but the last are full.
pub proof fn lemma_frame_size(data: Seq<u8>, i: int)
    requires
        0 <= i < frames_of(data).len(),
    ensures
        frames_of(data)[i].len() == FRAME_SIZE,
        frames_of(data)[i][0] == frame_share(data, i).len(),
        carried(frames_of(data)[i]) == frame_share(data, i),
        continues(frames_of(data)[i]) <==> i < frames_of(data).len() - 1,
{
    let share = frame_share(data, i);
    assert(i * FRAME_CAPACITY <= data.len());
    assert(share.len() <= FRAME_CAPACITY);
    assert(carried(padded(share)) =~= share);
}

/// The frame that carries `data[start..]`, or as much of it as fits.
fn frame_from(data: &Vec<u8>, start: usize) -> (frame: Vec<u8>)
    requires
        start <= data@.len(),
        start % FRAME_CAPACITY == 0,
    ensures
        frame@ == padded(frame_share(data@, start as int / FRAME_CAPACITY as int)),
{
    let left: usize = data.len() - start;
    let count: usize = if left < FRAME_CAPACITY {
        left
    } else {
        FRAME_CAPACITY
    };
    let mut frame: Vec<u8> = vec![count as u8];
    let mut k: usize = 0;
    while k < count
        invariant
            k <= count <= FRAME_CAPACITY,
            start + count <= data.len(),
            frame@ == seq![count as u8] + data@.subrange(start as int, start + k),
        decreases count - k,
    {
        frame.push(data[start + k]);
        k = k + 1;
        assert(frame@ =~= seq![count as u8] + data@.subrange(start as int, start + k));
    }
    frame.resize(FRAME_SIZE, 0);
    proof {
        let i = start as int / FRAME_CAPACITY as int;
        assert(i * FRAME_CAPACITY == start);
        let share = frame_share(data@, i);
        assert(share =~= data@.subrange(start as int, start + count));
        let head = seq![count as u8] + share;
        assert(frame@.subrange(0, 1 + count) == head);
        assert forall|j: int| 0 <= j < FRAME_SIZE implies frame@[j] == padded(share)[j] by {
            if j < 1 + count {
                assert(frame@[j] == frame@.subrange(0, 1 + count)[j]);
            }
        }
        assert(frame@ =~= padded(share));
    }
    frame
}

/// Cuts a message into frames.
pub fn frame(data: Vec<u8>) -> (frames: Vec<Vec<u8>>)
    ensures
        contents(frames@) == frames_of(data@),
{
    let mut result: Vec<Vec<u8>> = Vec::new();
    if data.is_empty() {
        assert(contents(result@) =~= frames_of(data@));
        return result;
    }
    let mut start: usize = 0;
    while start < data.len()
        invariant
            start % FRAME_CAPACITY == 0,
            result@.len() == start / FRAME_CAPACITY,
            start <= data@.len(),
            forall|i: int|
                0 <= i < result@.len() ==> (#[trigger] result@[i])@ == padded(
                    frame_share(data@, i),
                ),
            data@.len() > 0,
        decreases data@.len() - start,
    {
        result.push(frame_from(&data, start));
        if data.len() - start < FRAME_CAPACITY {
            assert(contents(result@) =~= frames_of(data@));
            return result;
        }
        start = start + FRAME_CAPACITY;
    }
    result.push(frame_from(&data, start));
    assert(contents(result@) =~= frames_of(data@));
    result
}

} // verus!
