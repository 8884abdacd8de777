//! Frames: a length prefix followed by exactly that many payload bytes.
use vstd::prelude::*;
use crate::codec::{encode_prefix, le_bytes, le_value, lemma_prefix_width, PREFIX_LEN};

verus! {

/// Why no payload came out of a receive.
#[derive(Debug, Clone, Copy, PartialEq, Eq, Structural)]
pub enum FrameError {
    /// Not enough bytes have arrived yet for a whole frame; poll again later.
    WouldBlock,
    /// A datagram too short to hold a length prefix.
    ShortDatagram,
    /// A datagram whose length disagrees with the prefix it carries.
    LengthMismatch,
    /// A prefix announcing a payload larger than this machine can hold.
    TooLarge,
}

/// The frame that carries `payload`.
pub open spec fn frame_of(payload: Seq<u8>) -> Seq<u8> {
    le_bytes(payload.len() as u64) + payload
}

/// The payload length announced by the prefix at the head of `buf`.
pub open spec fn announced_len(buf: Seq<u8>) -> int {
    le_value(buf) as int
}

/// Where the frame at the head of `buf` ends.
pub open spec fn frame_end(buf: Seq<u8>) -> int {
    PREFIX_LEN + announced_len(buf)
}

/// `buf` opens with a whole frame: its prefix and all the payload it announces.
pub open spec fn has_frame(buf: Seq<u8>) -> bool {
    buf.len() >= PREFIX_LEN && frame_end(buf) <= buf.len()
}

/// The payload of the frame at the head of `buf`.
pub open spec fn head_payload(buf: Seq<u8>) -> Seq<u8> {
    buf.subrange(PREFIX_LEN as int, frame_end(buf))
}

/// What stays of `buf` once the frame at its head is taken off.
pub open spec fn after_head(buf: Seq<u8>) -> Seq<u8> {
    buf.subrange(frame_end(buf), buf.len() as int)
}

/// Builds the frame that carries `payload`: its length prefix, then the payload.
pub fn encode_frame(payload: &[u8]) -> (r: Vec<u8>)
    ensures
        r@ == frame_of(payload@),
{
    let mut r = encode_prefix(payload.len() as u64);
    r.extend_from_slice(payload);
    proof {
        assert(r@ =~= frame_of(payload@));
    }
    r
}

/// The payload length read off a prefix is exactly the number of payload
/// bytes that a frame at the head of the buffer takes.
pub proof fn lemma_payload_length(buf: Seq<u8>)
    requires
        has_frame(buf),
    ensures
        head_payload(buf).len() == le_value(buf),
        buf =~= buf.take(PREFIX_LEN as int) + head_payload(buf) + after_head(buf),
{
}

/// A frame read back from the head of a buffer gives the payload it was built
/// from, and leaves whatever followed it untouched.
pub proof fn lemma_frame_round_trip(payload: Seq<u8>, tail: Seq<u8>)
    requires
        payload.len() <= u64::MAX,
    ensures
        has_frame(frame_of(payload) + tail),
        head_payload(frame_of(payload) + tail) == payload,
        after_head(frame_of(payload) + tail) == tail,
{
    let n = payload.len() as u64;
    lemma_prefix_width(n);
    let buf = frame_of(payload) + tail;
    lemma_prefix_prefix(frame_of(payload), tail);
    assert(head_payload(buf) =~= payload);
    assert(after_head(buf) =~= tail);
}

/// The prefix value is read from the first eight bytes alone.
pub(crate) proof fn lemma_prefix_prefix(a: Seq<u8>, b: Seq<u8>)
    requires
        a.len() >= PREFIX_LEN,
    ensures
        le_value(a + b) == le_value(a),
{
    assert(forall|i: int| 0 <= i < 8 ==> #[trigger] (a + b)[i] == a[i]);
}

} // verus!
