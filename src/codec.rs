//! Messages on the stream: each one is a frame whose payload is the message's JSON.
use vstd::prelude::*;
use crate::frame::{be4, decode_frame, encode_frame, frame_of, frame_split, lemma_be4_round_trip, lemma_frame_round_trip, lemma_frame_truncated};
use crate::message::{decode_payload, encode_payload, lemma_payload_canonical, lemma_payload_round_trip, parse_payload, payload_of, valid_message, CodecError, MessageModel, P2PMessage};

verus! {

/// The frame that carries `m`.
pub open spec fn message_frame(m: MessageModel) -> Seq<u8> {
    frame_of(payload_of(m))
}

/// What reading a message from the front of `buf` gives: the message and the
/// number of bytes it took, a closed connection when `buf` ends inside the first
/// frame, or a protocol error when that frame does not hold a message.
pub open spec fn read_message(buf: Seq<u8>) -> Result<(MessageModel, nat), CodecError> {
    match frame_split(buf) {
        None => Err(CodecError::ConnectionClosed),
        Some((p, used)) => match parse_payload(p) {
            Some(m) => Ok((m, used)),
            None => Err(CodecError::Protocol),
        },
    }
}

/// The frame that carries `m`, or `TooLarge` when its payload does not fit the
/// length prefix.
pub fn encode_message(m: &P2PMessage) -> (r: Result<Vec<u8>, CodecError>)
    ensures
        match r {
            Ok(f) => payload_of(m@).len() <= u32::MAX && f@ == message_frame(m@),
            Err(e) => payload_of(m@).len() > u32::MAX && e == CodecError::TooLarge,
        },
{
    let p = encode_payload(m);
    if p.len() > 0xffff_ffff {
        return Err(CodecError::TooLarge);
    }
    Ok(encode_frame(&p))
}

/// Reads the message at the front of `buf`, with the number of bytes it took.
pub fn decode_message(buf: &[u8]) -> (r: Result<(P2PMessage, usize), CodecError>)
    ensures
        match r {
            Ok((m, used)) => read_message(buf@) == Ok::<(MessageModel, nat), CodecError>((m@, used as nat)),
            Err(e) => read_message(buf@) == Err::<(MessageModel, nat), CodecError>(e),
        },
{
    match decode_frame(buf) {
        Err(_) => Err(CodecError::ConnectionClosed),
        Ok((p, used)) => match decode_payload(&p) {
            Ok(m) => Ok((m, used)),
            Err(e) => Err(e),
        },
    }
}

/// A message written and read back is the same message, whatever follows its frame.
pub proof fn lemma_message_round_trip(m: MessageModel, rest: Seq<u8>)
    requires
        valid_message(m),
        payload_of(m).len() <= u32::MAX,
    ensures
        read_message(message_frame(m) + rest) == Ok::<(MessageModel, nat), CodecError>(
            (m, message_frame(m).len()),
        ),
{
    let p = payload_of(m);
    lemma_frame_round_trip(p, rest);
    lemma_payload_round_trip(m);
    assert(frame_split(frame_of(p) + rest) == Some((p, p.len() + 4)));
    assert(parse_payload(p) == Some(m));
}

/// A frame cut short reads as a closed connection, never as another message.
pub proof fn lemma_message_truncated(m: MessageModel, k: nat)
    requires
        payload_of(m).len() <= u32::MAX,
        k < message_frame(m).len(),
    ensures
        read_message(message_frame(m).subrange(0, k as int)) == Err::<(MessageModel, nat), CodecError>(
            CodecError::ConnectionClosed,
        ),
{
    lemma_frame_truncated(payload_of(m), k);
}


/// What reads as a message is a valid message, and the bytes it took are
/// exactly its frame.
pub proof fn lemma_message_canonical(buf: Seq<u8>)
    requires
        read_message(buf) is Ok,
    ensures
        ({
            let (m, used) = read_message(buf).unwrap();
            valid_message(m) && payload_of(m).len() <= u32::MAX && buf.subrange(0, used as int) == message_frame(m)
        }),
{
    let (p, used) = frame_split(buf).unwrap();
    lemma_payload_canonical(p);
    let n = p.len();
    assert(buf.subrange(0, 4) == be4(n)) by {
        lemma_be4_round_trip(buf.subrange(0, 4));
    }
    assert(buf.subrange(0, used as int) =~= buf.subrange(0, 4) + p);
}

} // verus!
