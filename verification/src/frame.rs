//! Wire framing: every message is a 32-bit signed length prefix in the
//! host's native byte order, followed by exactly that many payload bytes.
//!
//! The byte order is resolved once at startup and injected here as an
//! explicit [`ByteOrder`] value; an unrecognised host order is a startup
//! configuration error, never a failure inside request handling.

use vstd::prelude::*;

verus! {

/// The byte order used for the 4-byte length prefix.
#[derive(Clone, Copy, Debug, PartialEq, Eq, Structural)]
pub enum ByteOrder {
    Little,
    Big,
}

/// Transport-level failures; the connection is closed without a response.
#[derive(Clone, Copy, Debug, PartialEq, Eq, Structural)]
pub enum FramingError {
    /// Fewer than 4 header bytes arrived before the stream closed.
    ShortHeader,
    /// The declared length was zero (or negative): nothing to process.
    EmptyMessage,
    /// The declared length exceeds the bytes available before stream close.
    ShortBody,
    /// The peer stopped accepting bytes before the whole frame was written.
    WriteFailed,
}

/// The exclusive upper bound a signed 32-bit length prefix can declare.
pub open spec fn max_frame_len() -> int {
    0x7fff_ffff
}

/// The little-endian bytes of a 32-bit value, least significant first.
pub open spec fn spec_u32_le(n: u32) -> Seq<u8> {
    seq![
        (n & 0xff) as u8,
        ((n >> 8) & 0xff) as u8,
        ((n >> 16) & 0xff) as u8,
        ((n >> 24) & 0xff) as u8,
    ]
}

/// The big-endian bytes of a 32-bit value, most significant first.
pub open spec fn spec_u32_be(n: u32) -> Seq<u8> {
    seq![
        ((n >> 24) & 0xff) as u8,
        ((n >> 16) & 0xff) as u8,
        ((n >> 8) & 0xff) as u8,
        (n & 0xff) as u8,
    ]
}

/// The 4-byte length prefix for value `n` in the given byte order.
pub open spec fn spec_len_bytes(n: u32, order: ByteOrder) -> Seq<u8> {
    match order {
        ByteOrder::Little => spec_u32_le(n),
        ByteOrder::Big => spec_u32_be(n),
    }
}

/// The 32-bit value read from 4 bytes in the given byte order.
pub open spec fn spec_u32_of(b: Seq<u8>, order: ByteOrder) -> u32
    recommends
        b.len() == 4,
{
    match order {
        ByteOrder::Little => (b[0] as u32) | ((b[1] as u32) << 8) | ((b[2] as u32) << 16) | (
        (b[3] as u32) << 24),
        ByteOrder::Big => (b[3] as u32) | ((b[2] as u32) << 8) | ((b[1] as u32) << 16) | (
        (b[0] as u32) << 24),
    }
}

/// Encodes the length prefix for value `n`.
pub fn encode_len(n: u32, order: ByteOrder) -> (r: Vec<u8>)
    ensures
        r@ == spec_len_bytes(n, order),
{
    let b0 = (n & 0xff) as u8;
    let b1 = ((n >> 8) & 0xff) as u8;
    let b2 = ((n >> 16) & 0xff) as u8;
    let b3 = ((n >> 24) & 0xff) as u8;
    let r: Vec<u8> = match order {
        ByteOrder::Little => vec![b0, b1, b2, b3],
        ByteOrder::Big => vec![b3, b2, b1, b0],
    };
    proof {
        assert(r@ =~= spec_len_bytes(n, order));
    }
    r
}

/// Reads the 32-bit length prefix value from 4 bytes.
pub fn decode_len(b0: u8, b1: u8, b2: u8, b3: u8, order: ByteOrder) -> (r: u32)
    ensures
        r == spec_u32_of(seq![b0, b1, b2, b3], order),
{
    match order {
        ByteOrder::Little => (b0 as u32) | ((b1 as u32) << 8) | ((b2 as u32) << 16) | ((b3
            as u32) << 24),
        ByteOrder::Big => (b3 as u32) | ((b2 as u32) << 8) | ((b1 as u32) << 16) | ((b0
            as u32) << 24),
    }
}

/// A length prefix decodes back to the value it was encoded from.
pub proof fn lemma_len_round_trip(n: u32, order: ByteOrder)
    ensures
        spec_u32_of(spec_len_bytes(n, order), order) == n,
{
    assert((((n & 0xff) as u8) as u32) | (((((n >> 8) & 0xff) as u8) as u32) << 8) | (((((n
        >> 16) & 0xff) as u8) as u32) << 16) | (((((n >> 24) & 0xff) as u8) as u32) << 24)
        == n) by (bit_vector);
}

/// The outcome of reading one frame from the bytes `avail` that arrived
/// before the stream closed: the payload, or the framing failure.
///
/// A declared length of zero means "nothing to process"; a negative declared
/// length (top bit set) likewise carries no processable body, so both are
/// reported as [`FramingError::EmptyMessage`].
pub open spec fn spec_decode_frame(avail: Seq<u8>, order: ByteOrder) -> Result<
    Seq<u8>,
    FramingError,
> {
    if avail.len() < 4 {
        Err(FramingError::ShortHeader)
    } else {
        let n = spec_u32_of(avail.subrange(0, 4), order) as int;
        if n == 0 || n > max_frame_len() {
            Err(FramingError::EmptyMessage)
        } else if avail.len() < 4 + n {
            Err(FramingError::ShortBody)
        } else {
            Ok(avail.subrange(4, 4 + n))
        }
    }
}

/// The frame for a payload: its length prefix followed by its bytes.
pub open spec fn spec_encode_frame(p: Seq<u8>, order: ByteOrder) -> Seq<u8> {
    spec_len_bytes(p.len() as u32, order) + p
}

/// Reads one frame out of the bytes that arrived before the stream closed.
pub fn decode_frame(avail: &Vec<u8>, order: ByteOrder) -> (r: Result<Vec<u8>, FramingError>)
    ensures
        ({
            let s = spec_decode_frame(avail@, order);
            match r {
                Ok(p) => s is Ok && p@ == s->Ok_0,
                Err(e) => s is Err && e == s->Err_0,
            }
        }),
{
    if avail.len() < 4 {
        return Err(FramingError::ShortHeader);
    }
    let n = decode_len(avail[0], avail[1], avail[2], avail[3], order);
    proof {
        assert(seq![avail@[0], avail@[1], avail@[2], avail@[3]] =~= avail@.subrange(0, 4));
    }
    if n == 0 || n > 0x7fff_ffff {
        return Err(FramingError::EmptyMessage);
    }
    let body_len = n as usize;
    if avail.len() < 4 + body_len {
        return Err(FramingError::ShortBody);
    }
    let mut p: Vec<u8> = Vec::new();
    let mut i: usize = 0;
    while i < body_len
        invariant
            i <= body_len,
            body_len <= 0x7fff_ffff,
            4 + body_len <= avail@.len(),
            p@ =~= avail@.subrange(4, 4 + i as int),
        decreases body_len - i,
    {
        p.push(avail[4 + i]);
        i = i + 1;
    }
    proof {
        assert(p@ =~= avail@.subrange(4, 4 + n as int));
    }
    Ok(p)
}

/// Builds the frame for a payload; `None` when the payload is too long for
/// a signed 32-bit length prefix.
pub fn encode_frame(payload: &Vec<u8>, order: ByteOrder) -> (r: Option<Vec<u8>>)
    ensures
        r is Some <==> payload@.len() <= max_frame_len(),
        r is Some ==> r->0@ == spec_encode_frame(payload@, order),
{
    if payload.len() > 0x7fff_ffff {
        return None;
    }
    let mut out = encode_len(payload.len() as u32, order);
    let mut i: usize = 0;
    while i < payload.len()
        invariant
            i <= payload@.len(),
            payload@.len() <= max_frame_len(),
            out@ =~= spec_len_bytes(payload@.len() as u32, order) + payload@.subrange(
                0,
                i as int,
            ),
        decreases payload@.len() - i,
    {
        out.push(payload[i]);
        i = i + 1;
    }
    proof {
        assert(out@ =~= spec_encode_frame(payload@, order));
    }
    Some(out)
}

/// Reading back an encoded frame yields exactly the payload it was built
/// from, and the 4-byte prefix reads back as exactly the payload length.
pub proof fn lemma_frame_round_trip(p: Seq<u8>, order: ByteOrder)
    requires
        0 < p.len() <= max_frame_len(),
    ensures
        spec_u32_of(spec_encode_frame(p, order).subrange(0, 4), order) == p.len(),
        spec_decode_frame(spec_encode_frame(p, order), order) == Ok::<Seq<u8>, FramingError>(p),
{
    let f = spec_encode_frame(p, order);
    assert(f.subrange(0, 4) =~= spec_len_bytes(p.len() as u32, order));
    lemma_len_round_trip(p.len() as u32, order);
    assert(f.subrange(4, 4 + p.len() as int) =~= p);
}

} // verus!
