//! The eight-byte length prefix, written and read through bincode.
use vstd::prelude::*;

verus! {

#[verifier::external_type_specification]
#[verifier::external_body]
pub struct ExErrorKind(bincode::ErrorKind);

/// Number of bytes a length prefix takes on the wire.
pub const PREFIX_LEN: usize = 8;

/// The eight little-endian bytes of `n`.
pub open spec fn le_bytes(n: u64) -> Seq<u8> {
    seq![
        n as u8,
        (n >> 8u64) as u8,
        (n >> 16u64) as u8,
        (n >> 24u64) as u8,
        (n >> 32u64) as u8,
        (n >> 40u64) as u8,
        (n >> 48u64) as u8,
        (n >> 56u64) as u8,
    ]
}

/// The `u64` whose little-endian bytes open `b` (the first eight of them).
pub open spec fn le_value(b: Seq<u8>) -> u64
    recommends
        b.len() >= 8,
{
    (b[0] as u64) | ((b[1] as u64) << 8u64) | ((b[2] as u64) << 16u64) | ((b[3] as u64) << 24u64)
        | ((b[4] as u64) << 32u64) | ((b[5] as u64) << 40u64) | ((b[6] as u64) << 48u64) | ((
    b[7] as u64) << 56u64)
}

/// Relies on `bincode::serialize` with its default configuration: fixed-width
/// integers, little-endian, and the `Infinite` size limit, whose `add` always
/// succeeds. A `u64` is written as its eight little-endian bytes, into a `Vec`,
/// whose writes do not fail, so the call always returns `Ok`.
#[verifier::external_body]
fn serialize_u64(n: u64) -> (r: Result<Vec<u8>, Box<bincode::ErrorKind>>)
    ensures
        r is Ok,
        r matches Ok(v) ==> v@ == le_bytes(n),
{
    bincode::serialize(&n)
}

/// Relies on `bincode::deserialize::<u64>` with its default configuration:
/// it reads the first eight bytes as a little-endian `u64` and allows trailing
/// bytes; its slice reader fails with `UnexpectedEof` on fewer than eight.
#[verifier::external_body]
fn deserialize_u64(b: &[u8]) -> (r: Result<u64, Box<bincode::ErrorKind>>)
    ensures
        r is Ok <==> b@.len() >= 8,
        r matches Ok(v) ==> v == le_value(b@),
{
    bincode::deserialize::<u64>(b)
}

/// Writes the length prefix for a payload of `len` bytes.
pub fn encode_prefix(len: u64) -> (r: Vec<u8>)
    ensures
        r@ == le_bytes(len),
        r@.len() == PREFIX_LEN,
{
    serialize_u64(len).unwrap()
}

/// Reads the length prefix at the head of `b`; `None` while fewer than eight
/// bytes are there.
pub fn decode_prefix(b: &[u8]) -> (r: Option<u64>)
    ensures
        r == (if b@.len() >= PREFIX_LEN {
            Some(le_value(b@))
        } else {
            None::<u64>
        }),
{
    match deserialize_u64(b) {
        Ok(v) => Some(v),
        Err(_) => None,
    }
}

/// A prefix always takes eight bytes, whatever the length it carries, and
/// reading it back gives that length.
pub proof fn lemma_prefix_width(n: u64)
    ensures
        le_bytes(n).len() == PREFIX_LEN,
        le_value(le_bytes(n)) == n,
{
    let b = le_bytes(n);
    assert(b[0] == n as u8);
    assert(b[7] == (n >> 56u64) as u8);
    assert(((n as u8) as u64) | ((((n >> 8u64) as u8) as u64) << 8u64) | ((((n >> 16u64) as u8) as u64)
        << 16u64) | ((((n >> 24u64) as u8) as u64) << 24u64) | ((((n >> 32u64) as u8) as u64) << 32u64)
        | ((((n >> 40u64) as u8) as u64) << 40u64) | ((((n >> 48u64) as u8) as u64) << 48u64) | ((((n
        >> 56u64) as u8) as u64) << 56u64) == n) by (bit_vector);
}

} // verus!
