//! Datagram framing: one frame is one datagram, read by peeking its prefix
//! first and then receiving the datagram whole.
use vstd::prelude::*;
use crate::codec::{decode_prefix, le_value, PREFIX_LEN};
use crate::frame::{frame_of, lemma_frame_round_trip, FrameError};

verus! {

/// `d` is exactly one frame: its prefix announces all the bytes after it.
pub open spec fn is_whole_datagram(d: Seq<u8>) -> bool {
    d.len() >= PREFIX_LEN && d.len() == PREFIX_LEN + le_value(d)
}

/// The length of the buffer to receive a datagram into, given the bytes peeked
/// from its head: room for the prefix, the announced payload and one more
/// byte, so that a datagram longer than announced shows in its length.
pub fn recv_capacity(peeked: &[u8]) -> (r: Result<usize, FrameError>)
    ensures
        peeked@.len() < PREFIX_LEN ==> r == Err::<usize, FrameError>(FrameError::ShortDatagram),
        peeked@.len() >= PREFIX_LEN && PREFIX_LEN + le_value(peeked@) + 1 <= usize::MAX ==> r
            == Ok::<usize, FrameError>((PREFIX_LEN + le_value(peeked@) + 1) as usize),
        peeked@.len() >= PREFIX_LEN && PREFIX_LEN + le_value(peeked@) + 1 > usize::MAX ==> r
            == Err::<usize, FrameError>(FrameError::TooLarge),
{
    let size = match decode_prefix(peeked) {
        Some(size) => size,
        None => return Err(FrameError::ShortDatagram),
    };
    if size > (usize::MAX - PREFIX_LEN - 1) as u64 {
        return Err(FrameError::TooLarge);
    }
    Ok(PREFIX_LEN + size as usize + 1)
}

/// The payload of a received datagram `d`; an error where `d` is not exactly
/// one frame.
pub fn datagram_payload(d: &[u8]) -> (r: Result<Vec<u8>, FrameError>)
    ensures
        d@.len() < PREFIX_LEN ==> r == Err::<Vec<u8>, FrameError>(FrameError::ShortDatagram),
        d@.len() >= PREFIX_LEN && !is_whole_datagram(d@) ==> r == Err::<Vec<u8>, FrameError>(
            FrameError::LengthMismatch,
        ),
        is_whole_datagram(d@) ==> (r matches Ok(p) && p@ == d@.subrange(
            PREFIX_LEN as int,
            d@.len() as int,
        )),
{
    let size = match decode_prefix(d) {
        Some(size) => size,
        None => return Err(FrameError::ShortDatagram),
    };
    if size != (d.len() - PREFIX_LEN) as u64 {
        return Err(FrameError::LengthMismatch);
    }
    let mut p: Vec<u8> = Vec::new();
    p.extend_from_slice(vstd::slice::slice_subrange(d, PREFIX_LEN, d.len()));
    proof {
        assert(p@ =~= d@.subrange(PREFIX_LEN as int, d@.len() as int));
    }
    Ok(p)
}

/// A frame sent as one datagram is received as one whole datagram whose
/// payload is the one sent.
pub proof fn lemma_datagram_round_trip(payload: Seq<u8>)
    requires
        payload.len() <= u64::MAX,
    ensures
        is_whole_datagram(frame_of(payload)),
        frame_of(payload).subrange(PREFIX_LEN as int, frame_of(payload).len() as int) == payload,
{
    lemma_frame_round_trip(payload, Seq::empty());
    assert(frame_of(payload) + Seq::<u8>::empty() =~= frame_of(payload));
}

} // verus!
