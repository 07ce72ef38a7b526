//! Wire framing: one serialized message per frame, terminated by a single
//! newline byte. The transport writes framed bytes and the readers buffer
//! until the delimiter; these functions pin the frame layout down.

use vstd::prelude::*;

verus! {

/// The delimiter closing every frame.
pub const FRAME_DELIMITER: u8 = 10;

/// A payload with the frame delimiter appended.
pub open spec fn framed(payload: Seq<u8>) -> Seq<u8> {
    payload.push(FRAME_DELIMITER)
}

/// Close a serialized payload into one wire frame.
pub fn frame(payload: Vec<u8>) -> (r: Vec<u8>)
    ensures
        r@ == framed(payload@),
{
    let mut data = payload;
    data.push(FRAME_DELIMITER);
    data
}

/// Recover the payload of one delimited frame; bytes that do not end in
/// the delimiter are not a frame.
pub fn unframe(data: Vec<u8>) -> (r: Option<Vec<u8>>)
    ensures
        match r {
            Some(p) => data@.len() >= 1 && data@ == framed(p@),
            None => data@.len() == 0 || data@.last() != FRAME_DELIMITER,
        },
{
    let n = data.len();
    if n == 0 {
        return None;
    }
    if data[n - 1] != FRAME_DELIMITER {
        return None;
    }
    let mut p = data;
    p.truncate(n - 1);
    proof {
        assert(framed(p@) =~= p@.push(FRAME_DELIMITER));
    }
    Some(p)
}

/// Framing loses nothing: a frame carries exactly its payload, and the
/// payload is recovered by stripping the delimiter.
pub proof fn lemma_frame_round_trip(payload: Seq<u8>)
    ensures
        framed(payload).len() == payload.len() + 1,
        framed(payload).last() == FRAME_DELIMITER,
        framed(payload).drop_last() == payload,
{
    assert(framed(payload).drop_last() =~= payload);
}

} // verus!
