//! Length-prefixed framing: a 4-byte big-endian length, then that many bytes.
use vstd::prelude::*;

verus! {

/// The four bytes that announce a payload of `n` bytes, most significant first.
pub open spec fn be4(n: nat) -> Seq<u8> {
    seq![
        (n / 0x100_0000 % 0x100) as u8,
        (n / 0x1_0000 % 0x100) as u8,
        (n / 0x100 % 0x100) as u8,
        (n % 0x100) as u8,
    ]
}

/// The length that four prefix bytes announce.
pub open spec fn be4_value(p: Seq<u8>) -> nat
    recommends
        p.len() == 4,
{
    (p[0] as nat) * 0x100_0000 + (p[1] as nat) * 0x1_0000 + (p[2] as nat) * 0x100 + (p[3] as nat)
}

/// One frame carrying `payload`.
pub open spec fn frame_of(payload: Seq<u8>) -> Seq<u8> {
    be4(payload.len()) + payload
}

/// Splits the first frame off `buf`: its payload and the number of bytes it took,
/// or `None` when `buf` ends before the frame does.
pub open spec fn frame_split(buf: Seq<u8>) -> Option<(Seq<u8>, nat)> {
    if buf.len() < 4 {
        None
    } else {
        let n = be4_value(buf.subrange(0, 4));
        if buf.len() - 4 < n {
            None
        } else {
            Some((buf.subrange(4, 4 + n as int), 4 + n))
        }
    }
}

/// Why a frame could not be read.
#[derive(Debug, Clone, Copy, PartialEq, Eq, Structural)]
pub enum FrameError {
    /// The stream ended before the frame did.
    ConnectionClosed,
}

proof fn lemma_be4_value(n: nat)
    requires
        n <= u32::MAX,
    ensures
        be4_value(be4(n)) == n,
{
    let b0 = n / 0x100_0000 % 0x100;
    let b1 = n / 0x1_0000 % 0x100;
    let b2 = n / 0x100 % 0x100;
    let b3 = n % 0x100;
    assert(b0 * 0x100_0000 + b1 * 0x1_0000 + b2 * 0x100 + b3 == n) by (nonlinear_arith)
        requires
            n <= u32::MAX,
            b0 == n / 0x100_0000 % 0x100,
            b1 == n / 0x1_0000 % 0x100,
            b2 == n / 0x100 % 0x100,
            b3 == n % 0x100,
    ;
}

/// The length prefix of a payload of `n` bytes.
pub fn length_prefix(n: u32) -> (r: Vec<u8>)
    ensures
        r@ == be4(n as nat),
{
    let v = vec![(n >> 24) as u8, ((n >> 16) & 0xff) as u8, ((n >> 8) & 0xff) as u8, (n & 0xff) as u8];
    assert((n >> 24) as u8 == (n as nat / 0x100_0000 % 0x100) as u8) by (bit_vector);
    assert(((n >> 16) & 0xff) as u8 == (n as nat / 0x1_0000 % 0x100) as u8) by (bit_vector);
    assert(((n >> 8) & 0xff) as u8 == (n as nat / 0x100 % 0x100) as u8) by (bit_vector);
    assert((n & 0xff) as u8 == (n as nat % 0x100) as u8) by (bit_vector);
    v
}

/// The payload length that a 4-byte prefix announces.
pub fn declared_length(prefix: &[u8]) -> (r: u32)
    requires
        prefix@.len() == 4,
    ensures
        r as nat == be4_value(prefix@),
{
    let b0 = prefix[0] as u32;
    let b1 = prefix[1] as u32;
    let b2 = prefix[2] as u32;
    let b3 = prefix[3] as u32;
    b0 * 0x100_0000 + b1 * 0x1_0000 + b2 * 0x100 + b3
}

/// Frames `payload`: the length prefix followed by the payload itself.
pub fn encode_frame(payload: &[u8]) -> (r: Vec<u8>)
    requires
        payload@.len() <= u32::MAX,
    ensures
        r@ == frame_of(payload@),
{
    let mut out = length_prefix(payload.len() as u32);
    let mut i: usize = 0;
    while i < payload.len()
        invariant
            i <= payload@.len(),
            out@ == be4(payload@.len()) + payload@.subrange(0, i as int),
        decreases payload@.len() - i,
    {
        out.push(payload[i]);
        i = i + 1;
        assert(payload@.subrange(0, i as int) =~= payload@.subrange(0, i - 1) + seq![payload@[i - 1]]);
    }
    assert(payload@.subrange(0, payload@.len() as int) =~= payload@);
    out
}

/// Reads the first frame of `buf`: its payload and the number of bytes it took.
/// A buffer that ends before the frame does is a closed connection.
pub fn decode_frame(buf: &[u8]) -> (r: Result<(Vec<u8>, usize), FrameError>)
    ensures
        match r {
            Ok((p, used)) => frame_split(buf@) == Some((p@, used as nat)),
            Err(e) => frame_split(buf@) is None && e == FrameError::ConnectionClosed,
        },
{
    if buf.len() < 4 {
        return Err(FrameError::ConnectionClosed);
    }
    let n = declared_length(&buf[0..4]) as usize;
    assert(buf@.subrange(0, 4) == buf@.subrange(0, 4));
    if buf.len() - 4 < n {
        return Err(FrameError::ConnectionClosed);
    }
    let end: usize = 4 + n;
    let mut out: Vec<u8> = Vec::new();
    let mut i: usize = 4;
    while i < end
        invariant
            end == 4 + n,
            4 <= i <= end <= buf@.len(),
            out@ == buf@.subrange(4, i as int),
        decreases end - i,
    {
        out.push(buf[i]);
        i = i + 1;
        assert(buf@.subrange(4, i as int) =~= buf@.subrange(4, i - 1) + seq![buf@[i - 1]]);
    }
    Ok((out, end))
}

/// A frame read back yields the payload it was made from, whatever follows it.
pub proof fn lemma_frame_round_trip(payload: Seq<u8>, rest: Seq<u8>)
    requires
        payload.len() <= u32::MAX,
    ensures
        frame_split(frame_of(payload) + rest) == Some((payload, payload.len() + 4)),
{
    let b = frame_of(payload) + rest;
    lemma_be4_value(payload.len());
    assert(b.subrange(0, 4) =~= be4(payload.len()));
    assert(b.subrange(4, 4 + payload.len() as int) =~= payload);
}

/// A frame cut short is a closed connection, never some other payload.
pub proof fn lemma_frame_truncated(payload: Seq<u8>, k: nat)
    requires
        payload.len() <= u32::MAX,
        k < frame_of(payload).len(),
    ensures
        frame_split(frame_of(payload).subrange(0, k as int)) is None,
{
    let b = frame_of(payload).subrange(0, k as int);
    if k >= 4 {
        lemma_be4_value(payload.len());
        assert(b.subrange(0, 4) =~= be4(payload.len()));
    }
}


/// Four prefix bytes are the encoding of the length they announce.
pub proof fn lemma_be4_round_trip(p: Seq<u8>)
    requires
        p.len() == 4,
    ensures
        be4(be4_value(p)) == p,
        be4_value(p) <= u32::MAX,
{
    let n = be4_value(p);
    let (a, b, c, d) = (p[0] as int, p[1] as int, p[2] as int, p[3] as int);
    assert(n / 0x100_0000 % 0x100 == a && n / 0x1_0000 % 0x100 == b && n / 0x100 % 0x100 == c && n % 0x100 == d)
        by (nonlinear_arith)
        requires
            n == a * 0x100_0000 + b * 0x1_0000 + c * 0x100 + d,
            0 <= a < 256,
            0 <= b < 256,
            0 <= c < 256,
            0 <= d < 256,
    ;
    assert(be4(n) =~= p);
}

} // verus!
