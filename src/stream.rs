//! The receive side of a framed byte stream: bytes read from the transport
//! gather in a buffer, and whole frames are taken off its head.
use vstd::prelude::*;
use crate::codec::{decode_prefix, le_bytes, le_value, lemma_prefix_width, PREFIX_LEN};
use crate::frame::{
    after_head, frame_of, has_frame, head_payload, lemma_frame_round_trip, lemma_prefix_prefix,
    FrameError,
};

verus! {

/// What the buffer holds after taking a frame off `buf`, and the payload taken
/// (`None` when no whole frame is there yet, which leaves `buf` as it was).
pub open spec fn take_step(buf: Seq<u8>) -> (Seq<u8>, Option<Seq<u8>>) {
    if has_frame(buf) {
        (after_head(buf), Some(head_payload(buf)))
    } else {
        (buf, None)
    }
}

/// One poll: `incoming` is appended to `buf`, then one frame is taken if a
/// whole one is there.
pub open spec fn poll_step(buf: Seq<u8>, incoming: Seq<u8>) -> (Seq<u8>, Option<Seq<u8>>) {
    take_step(buf + incoming)
}

/// The bytes read off a stream and not yet taken as whole frames.
#[derive(Debug)]
pub struct RecvBuffer {
    bytes: Vec<u8>,
}

impl View for RecvBuffer {
    type V = Seq<u8>;

    closed spec fn view(&self) -> Seq<u8> {
        self.bytes@
    }
}

impl RecvBuffer {
    /// An empty buffer.
    pub fn new() -> (r: RecvBuffer)
        ensures
            r@ == Seq::<u8>::empty(),
    {
        RecvBuffer { bytes: Vec::new() }
    }

    /// Number of bytes held.
    pub fn len(&self) -> (r: usize)
        ensures
            r == self@.len(),
    {
        self.bytes.len()
    }

    /// Appends bytes read from the transport at the tail.
    pub fn push_bytes(&mut self, data: &[u8])
        ensures
            final(self)@ == old(self)@ + data@,
    {
        self.bytes.extend_from_slice(data);
        proof {
            assert(self@ =~= old(self)@ + data@);
        }
    }

    /// Takes the frame at the head off the buffer and returns its payload;
    /// `WouldBlock`, with the buffer unchanged, while no whole frame is there.
    pub fn take_frame(&mut self) -> (r: Result<Vec<u8>, FrameError>)
        ensures
            final(self)@ == take_step(old(self)@).0,
            match r {
                Ok(p) => take_step(old(self)@).1 == Some(p@),
                Err(e) => take_step(old(self)@).1 is None && e == FrameError::WouldBlock,
            },
    {
        let size = match decode_prefix(self.bytes.as_slice()) {
            Some(size) => size,
            None => return Err(FrameError::WouldBlock),
        };
        let avail = self.bytes.len() - PREFIX_LEN;
        if size > avail as u64 {
            return Err(FrameError::WouldBlock);
        }
        let end = PREFIX_LEN + size as usize;
        let ghost buf = self.bytes@;
        let rest = self.bytes.split_off(end);
        let payload = self.bytes.split_off(PREFIX_LEN);
        self.bytes = rest;
        proof {
            assert(payload@ =~= head_payload(buf));
            assert(self.bytes@ =~= after_head(buf));
        }
        Ok(payload)
    }

    /// One poll of the stream: appends the bytes just read, then takes a whole
    /// frame off the head if one is there.
    pub fn poll(&mut self, incoming: &[u8]) -> (r: Result<Vec<u8>, FrameError>)
        ensures
            final(self)@ == poll_step(old(self)@, incoming@).0,
            match r {
                Ok(p) => poll_step(old(self)@, incoming@).1 == Some(p@),
                Err(e) => poll_step(old(self)@, incoming@).1 is None && e
                    == FrameError::WouldBlock,
            },
    {
        self.push_bytes(incoming);
        self.take_frame()
    }
}

/// No proper prefix of a frame holds a whole frame.
proof fn lemma_no_frame_in_part(payload: Seq<u8>, k: int)
    requires
        payload.len() <= u64::MAX,
        0 <= k < frame_of(payload).len(),
    ensures
        !has_frame(frame_of(payload).take(k)),
{
    let f = frame_of(payload);
    lemma_prefix_width(payload.len() as u64);
    if k >= PREFIX_LEN {
        lemma_prefix_prefix(f.take(k), f.skip(k));
        assert(f.take(k) + f.skip(k) =~= f);
        lemma_prefix_prefix(le_bytes(payload.len() as u64), payload);
        assert(le_value(f.take(k)) == payload.len());
    }
}

/// A frame that arrives in pieces, of any sizes, across several polls: every
/// poll before its last byte has come gives `WouldBlock` and keeps all that
/// came so far, and the poll that brings its last byte gives its payload and
/// leaves the buffer empty.
pub proof fn lemma_partial_reads(payload: Seq<u8>, j: int, k: int)
    requires
        payload.len() <= u64::MAX,
        0 <= j <= k <= frame_of(payload).len(),
    ensures
        k < frame_of(payload).len() ==> poll_step(
            frame_of(payload).take(j),
            frame_of(payload).subrange(j, k),
        ) == (frame_of(payload).take(k), None::<Seq<u8>>),
        k == frame_of(payload).len() ==> poll_step(
            frame_of(payload).take(j),
            frame_of(payload).subrange(j, k),
        ) == (Seq::<u8>::empty(), Some(payload)),
{
    let f = frame_of(payload);
    assert(f.take(j) + f.subrange(j, k) =~= f.take(k));
    if k < f.len() {
        lemma_no_frame_in_part(payload, k);
    } else {
        lemma_frame_round_trip(payload, Seq::empty());
        assert(f.take(k) =~= f + Seq::<u8>::empty());
    }
}

/// Two whole frames and the first part of a third, read at once: the next
/// polls give the first payload, the second, then `WouldBlock`; once the rest
/// of the third frame arrives, a poll gives the third payload.
pub proof fn lemma_carry_over(p1: Seq<u8>, p2: Seq<u8>, p3: Seq<u8>, k: int)
    requires
        p1.len() <= u64::MAX,
        p2.len() <= u64::MAX,
        p3.len() <= u64::MAX,
        0 <= k < frame_of(p3).len(),
    ensures
        poll_step(Seq::empty(), frame_of(p1) + frame_of(p2) + frame_of(p3).take(k)) == (
            frame_of(p2) + frame_of(p3).take(k),
            Some(p1),
        ),
        poll_step(frame_of(p2) + frame_of(p3).take(k), Seq::empty()) == (
            frame_of(p3).take(k),
            Some(p2),
        ),
        poll_step(frame_of(p3).take(k), Seq::empty()) == (frame_of(p3).take(k), None::<Seq<u8>>),
        poll_step(frame_of(p3).take(k), frame_of(p3).skip(k)) == (Seq::<u8>::empty(), Some(p3)),
{
    let f1 = frame_of(p1);
    let f2 = frame_of(p2);
    let f3 = frame_of(p3);
    let part = f3.take(k);
    assert(Seq::<u8>::empty() + (f1 + f2 + part) =~= f1 + (f2 + part));
    lemma_frame_round_trip(p1, f2 + part);
    assert(f2 + part + Seq::<u8>::empty() =~= f2 + part);
    lemma_frame_round_trip(p2, part);
    assert(part + Seq::<u8>::empty() =~= part);
    lemma_no_frame_in_part(p3, k);
    lemma_partial_reads(p3, k, f3.len() as int);
    assert(f3.subrange(k, f3.len() as int) =~= f3.skip(k));
}

} // verus!
