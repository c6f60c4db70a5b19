//! The messages that agents exchange, and their wire layout: compact JSON with a
//! `type` field that names the variant, fields in the order declared below.
use vstd::prelude::*;
use vstd::utf8::{decode_utf8, decode_utf8_encode_utf8, encode_utf8, encode_utf8_decode_utf8, encode_utf8_valid_utf8, valid_utf8};
use crate::ids::{lemma_uuid_bytes_of_ascii, agent_id_ascii, agent_id_from_ascii, is_uuid_ascii, uuid_ascii, uuid_bytes_of};
use crate::json::{escape, escape_into, lemma_unescape_canonical, lemma_unescape_escape, read_string, unescape};

verus! {

/// One message of the agent-to-agent protocol. Identifiers are the 16 bytes of a
/// UUID; timestamps are RFC 3339 text; `metrics` and `data` are JSON text.
#[derive(Debug, Clone)]
pub enum P2PMessage {
    /// First message of each side of a session.
    Handshake { agent_id: [u8; 16], agent_name: String, timestamp: String },
    /// Sent periodically by the dialing side.
    Heartbeat { agent_id: [u8; 16], timestamp: String },
    /// Metrics pushed to a peer; no reply is expected.
    MetricsShare { agent_id: [u8; 16], timestamp: String, metrics: String },
    /// Asks a peer for its metrics.
    MetricsRequest { agent_id: [u8; 16], timestamp: String },
    /// Reply to a heartbeat or a metrics request.
    Response { success: bool, message: String, data: Option<String> },
}

/// The mathematical value of a message: identifiers as bytes, texts as characters.
pub enum MessageModel {
    Handshake { agent_id: Seq<u8>, agent_name: Seq<char>, timestamp: Seq<char> },
    Heartbeat { agent_id: Seq<u8>, timestamp: Seq<char> },
    MetricsShare { agent_id: Seq<u8>, timestamp: Seq<char>, metrics: Seq<char> },
    MetricsRequest { agent_id: Seq<u8>, timestamp: Seq<char> },
    Response { success: bool, message: Seq<char>, data: Option<Seq<char>> },
}

/// The text of an optional string.
pub open spec fn opt_view(o: Option<String>) -> Option<Seq<char>> {
    match o {
        Some(s) => Some(s@),
        None => None,
    }
}

impl View for P2PMessage {
    type V = MessageModel;

    open spec fn view(&self) -> MessageModel {
        match self {
            P2PMessage::Handshake { agent_id, agent_name, timestamp } => MessageModel::Handshake {
                agent_id: agent_id@,
                agent_name: agent_name@,
                timestamp: timestamp@,
            },
            P2PMessage::Heartbeat { agent_id, timestamp } => MessageModel::Heartbeat {
                agent_id: agent_id@,
                timestamp: timestamp@,
            },
            P2PMessage::MetricsShare { agent_id, timestamp, metrics } => MessageModel::MetricsShare {
                agent_id: agent_id@,
                timestamp: timestamp@,
                metrics: metrics@,
            },
            P2PMessage::MetricsRequest { agent_id, timestamp } => MessageModel::MetricsRequest {
                agent_id: agent_id@,
                timestamp: timestamp@,
            },
            P2PMessage::Response { success, message, data } => MessageModel::Response {
                success: *success,
                message: message@,
                data: opt_view(*data),
            },
        }
    }
}

/// How a piece of JSON text parses.
#[derive(Debug, Clone, Copy, PartialEq, Eq, Structural)]
pub enum JsonKind {
    /// Not a JSON value.
    Invalid,
    /// The value `null`.
    Null,
    /// Any other JSON value.
    Value,
}

/// What `serde_json` makes of the bytes `b` as one JSON value.
pub uninterp spec fn json_kind(b: Seq<u8>) -> JsonKind;

/// Whether chrono reads `s` as a UTC date and time.
pub uninterp spec fn is_timestamp_text(s: Seq<char>) -> bool;

/// Relies on `serde_json::from_slice::<serde_json::Value>`: whether the bytes are
/// one JSON value, and whether that value is `null`.
#[verifier::external_body]
pub(crate) fn classify_json(b: &[u8]) -> (r: JsonKind)
    ensures
        r == json_kind(b@),
{
    match serde_json::from_slice::<serde_json::Value>(b) {
        Ok(serde_json::Value::Null) => JsonKind::Null,
        Ok(_) => JsonKind::Value,
        Err(_) => JsonKind::Invalid,
    }
}

/// Relies on chrono's `FromStr` for `DateTime<Utc>` (the form its serde support
/// reads): whether `s` is accepted.
#[verifier::external_body]
pub(crate) fn is_timestamp(s: &str) -> (r: bool)
    ensures
        r == is_timestamp_text(s@),
{
    s.parse::<chrono::DateTime<chrono::Utc>>().is_ok()
}

/// Relies on `String::from_utf8`: the text that the bytes encode, when they are
/// valid UTF-8.
#[verifier::external_body]
pub(crate) fn utf8_text(b: Vec<u8>) -> (r: Option<String>)
    ensures
        r.is_some() == valid_utf8(b@),
        r.is_some() ==> r.unwrap()@ == decode_utf8(b@),
{
    String::from_utf8(b).ok()
}

/// The fixed pieces of the wire layout.
#[derive(Clone, Copy)]
pub enum Token {
    /// `{"type":"Handshake","agent_id":"`
    HandshakeHead,
    /// `{"type":"Heartbeat","agent_id":"`
    HeartbeatHead,
    /// `{"type":"MetricsShare","agent_id":"`
    MetricsShareHead,
    /// `{"type":"MetricsRequest","agent_id":"`
    MetricsRequestHead,
    /// `{"type":"Response","success":`
    ResponseHead,
    /// `,"agent_name":"`
    NameKey,
    /// `,"timestamp":"`
    TimestampKey,
    /// `,"metrics":`
    MetricsKey,
    /// `,"message":"`
    MessageKey,
    /// `,"data":`
    DataKey,
    /// `true`
    True,
    /// `false`
    False,
    /// `null`
    Null,
    /// `}`
    Close,
}

/// The bytes of a fixed piece of the wire layout.
pub open spec fn token(t: Token) -> Seq<u8> {
    match t {
        Token::HandshakeHead => seq![0x7bu8, 0x22u8, 0x74u8, 0x79u8, 0x70u8, 0x65u8, 0x22u8, 0x3au8, 0x22u8, 0x48u8, 0x61u8, 0x6eu8, 0x64u8, 0x73u8, 0x68u8, 0x61u8, 0x6bu8, 0x65u8, 0x22u8, 0x2cu8, 0x22u8, 0x61u8, 0x67u8, 0x65u8, 0x6eu8, 0x74u8, 0x5fu8, 0x69u8, 0x64u8, 0x22u8, 0x3au8, 0x22u8],
        Token::HeartbeatHead => seq![0x7bu8, 0x22u8, 0x74u8, 0x79u8, 0x70u8, 0x65u8, 0x22u8, 0x3au8, 0x22u8, 0x48u8, 0x65u8, 0x61u8, 0x72u8, 0x74u8, 0x62u8, 0x65u8, 0x61u8, 0x74u8, 0x22u8, 0x2cu8, 0x22u8, 0x61u8, 0x67u8, 0x65u8, 0x6eu8, 0x74u8, 0x5fu8, 0x69u8, 0x64u8, 0x22u8, 0x3au8, 0x22u8],
        Token::MetricsShareHead => seq![0x7bu8, 0x22u8, 0x74u8, 0x79u8, 0x70u8, 0x65u8, 0x22u8, 0x3au8, 0x22u8, 0x4du8, 0x65u8, 0x74u8, 0x72u8, 0x69u8, 0x63u8, 0x73u8, 0x53u8, 0x68u8, 0x61u8, 0x72u8, 0x65u8, 0x22u8, 0x2cu8, 0x22u8, 0x61u8, 0x67u8, 0x65u8, 0x6eu8, 0x74u8, 0x5fu8, 0x69u8, 0x64u8, 0x22u8, 0x3au8, 0x22u8],
        Token::MetricsRequestHead => seq![0x7bu8, 0x22u8, 0x74u8, 0x79u8, 0x70u8, 0x65u8, 0x22u8, 0x3au8, 0x22u8, 0x4du8, 0x65u8, 0x74u8, 0x72u8, 0x69u8, 0x63u8, 0x73u8, 0x52u8, 0x65u8, 0x71u8, 0x75u8, 0x65u8, 0x73u8, 0x74u8, 0x22u8, 0x2cu8, 0x22u8, 0x61u8, 0x67u8, 0x65u8, 0x6eu8, 0x74u8, 0x5fu8, 0x69u8, 0x64u8, 0x22u8, 0x3au8, 0x22u8],
        Token::ResponseHead => seq![0x7bu8, 0x22u8, 0x74u8, 0x79u8, 0x70u8, 0x65u8, 0x22u8, 0x3au8, 0x22u8, 0x52u8, 0x65u8, 0x73u8, 0x70u8, 0x6fu8, 0x6eu8, 0x73u8, 0x65u8, 0x22u8, 0x2cu8, 0x22u8, 0x73u8, 0x75u8, 0x63u8, 0x63u8, 0x65u8, 0x73u8, 0x73u8, 0x22u8, 0x3au8],
        Token::NameKey => seq![0x2cu8, 0x22u8, 0x61u8, 0x67u8, 0x65u8, 0x6eu8, 0x74u8, 0x5fu8, 0x6eu8, 0x61u8, 0x6du8, 0x65u8, 0x22u8, 0x3au8, 0x22u8],
        Token::TimestampKey => seq![0x2cu8, 0x22u8, 0x74u8, 0x69u8, 0x6du8, 0x65u8, 0x73u8, 0x74u8, 0x61u8, 0x6du8, 0x70u8, 0x22u8, 0x3au8, 0x22u8],
        Token::MetricsKey => seq![0x2cu8, 0x22u8, 0x6du8, 0x65u8, 0x74u8, 0x72u8, 0x69u8, 0x63u8, 0x73u8, 0x22u8, 0x3au8],
        Token::MessageKey => seq![0x2cu8, 0x22u8, 0x6du8, 0x65u8, 0x73u8, 0x73u8, 0x61u8, 0x67u8, 0x65u8, 0x22u8, 0x3au8, 0x22u8],
        Token::DataKey => seq![0x2cu8, 0x22u8, 0x64u8, 0x61u8, 0x74u8, 0x61u8, 0x22u8, 0x3au8],
        Token::True => seq![0x74u8, 0x72u8, 0x75u8, 0x65u8],
        Token::False => seq![0x66u8, 0x61u8, 0x6cu8, 0x73u8, 0x65u8],
        Token::Null => seq![0x6eu8, 0x75u8, 0x6cu8, 0x6cu8],
        Token::Close => seq![0x7du8],
    }
}

/// The bytes of `t`.
pub fn token_bytes(t: Token) -> (r: Vec<u8>)
    ensures
        r@ == token(t),
{
    match t {
        Token::HandshakeHead => vec![0x7bu8, 0x22u8, 0x74u8, 0x79u8, 0x70u8, 0x65u8, 0x22u8, 0x3au8, 0x22u8, 0x48u8, 0x61u8, 0x6eu8, 0x64u8, 0x73u8, 0x68u8, 0x61u8, 0x6bu8, 0x65u8, 0x22u8, 0x2cu8, 0x22u8, 0x61u8, 0x67u8, 0x65u8, 0x6eu8, 0x74u8, 0x5fu8, 0x69u8, 0x64u8, 0x22u8, 0x3au8, 0x22u8],
        Token::HeartbeatHead => vec![0x7bu8, 0x22u8, 0x74u8, 0x79u8, 0x70u8, 0x65u8, 0x22u8, 0x3au8, 0x22u8, 0x48u8, 0x65u8, 0x61u8, 0x72u8, 0x74u8, 0x62u8, 0x65u8, 0x61u8, 0x74u8, 0x22u8, 0x2cu8, 0x22u8, 0x61u8, 0x67u8, 0x65u8, 0x6eu8, 0x74u8, 0x5fu8, 0x69u8, 0x64u8, 0x22u8, 0x3au8, 0x22u8],
        Token::MetricsShareHead => vec![0x7bu8, 0x22u8, 0x74u8, 0x79u8, 0x70u8, 0x65u8, 0x22u8, 0x3au8, 0x22u8, 0x4du8, 0x65u8, 0x74u8, 0x72u8, 0x69u8, 0x63u8, 0x73u8, 0x53u8, 0x68u8, 0x61u8, 0x72u8, 0x65u8, 0x22u8, 0x2cu8, 0x22u8, 0x61u8, 0x67u8, 0x65u8, 0x6eu8, 0x74u8, 0x5fu8, 0x69u8, 0x64u8, 0x22u8, 0x3au8, 0x22u8],
        Token::MetricsRequestHead => vec![0x7bu8, 0x22u8, 0x74u8, 0x79u8, 0x70u8, 0x65u8, 0x22u8, 0x3au8, 0x22u8, 0x4du8, 0x65u8, 0x74u8, 0x72u8, 0x69u8, 0x63u8, 0x73u8, 0x52u8, 0x65u8, 0x71u8, 0x75u8, 0x65u8, 0x73u8, 0x74u8, 0x22u8, 0x2cu8, 0x22u8, 0x61u8, 0x67u8, 0x65u8, 0x6eu8, 0x74u8, 0x5fu8, 0x69u8, 0x64u8, 0x22u8, 0x3au8, 0x22u8],
        Token::ResponseHead => vec![0x7bu8, 0x22u8, 0x74u8, 0x79u8, 0x70u8, 0x65u8, 0x22u8, 0x3au8, 0x22u8, 0x52u8, 0x65u8, 0x73u8, 0x70u8, 0x6fu8, 0x6eu8, 0x73u8, 0x65u8, 0x22u8, 0x2cu8, 0x22u8, 0x73u8, 0x75u8, 0x63u8, 0x63u8, 0x65u8, 0x73u8, 0x73u8, 0x22u8, 0x3au8],
        Token::NameKey => vec![0x2cu8, 0x22u8, 0x61u8, 0x67u8, 0x65u8, 0x6eu8, 0x74u8, 0x5fu8, 0x6eu8, 0x61u8, 0x6du8, 0x65u8, 0x22u8, 0x3au8, 0x22u8],
        Token::TimestampKey => vec![0x2cu8, 0x22u8, 0x74u8, 0x69u8, 0x6du8, 0x65u8, 0x73u8, 0x74u8, 0x61u8, 0x6du8, 0x70u8, 0x22u8, 0x3au8, 0x22u8],
        Token::MetricsKey => vec![0x2cu8, 0x22u8, 0x6du8, 0x65u8, 0x74u8, 0x72u8, 0x69u8, 0x63u8, 0x73u8, 0x22u8, 0x3au8],
        Token::MessageKey => vec![0x2cu8, 0x22u8, 0x6du8, 0x65u8, 0x73u8, 0x73u8, 0x61u8, 0x67u8, 0x65u8, 0x22u8, 0x3au8, 0x22u8],
        Token::DataKey => vec![0x2cu8, 0x22u8, 0x64u8, 0x61u8, 0x74u8, 0x61u8, 0x22u8, 0x3au8],
        Token::True => vec![0x74u8, 0x72u8, 0x75u8, 0x65u8],
        Token::False => vec![0x66u8, 0x61u8, 0x6cu8, 0x73u8, 0x65u8],
        Token::Null => vec![0x6eu8, 0x75u8, 0x6cu8, 0x6cu8],
        Token::Close => vec![0x7du8],
    }
}

/// The UTF-8 bytes of a text.
pub open spec fn utf8(s: Seq<char>) -> Seq<u8> {
    encode_utf8(s)
}

/// A quoted string on the wire, after its opening quote: the escaped body, then
/// the closing quote.
pub open spec fn quoted(s: Seq<u8>) -> Seq<u8> {
    escape(s) + seq![0x22u8]
}

/// Whether a message can travel: its timestamp is one that chrono reads, its
/// metrics are JSON, and the data of a response, if any, is JSON other than `null`
/// (a `null` there reads back as no data).
pub open spec fn valid_message(m: MessageModel) -> bool {
    match m {
        MessageModel::Handshake { agent_id, timestamp, .. } => agent_id.len() == 16
            && is_timestamp_text(timestamp),
        MessageModel::Heartbeat { agent_id, timestamp } => agent_id.len() == 16
            && is_timestamp_text(timestamp),
        MessageModel::MetricsShare { agent_id, timestamp, metrics } => agent_id.len() == 16
            && is_timestamp_text(timestamp) && json_kind(utf8(metrics)) != JsonKind::Invalid,
        MessageModel::MetricsRequest { agent_id, timestamp } => agent_id.len() == 16
            && is_timestamp_text(timestamp),
        MessageModel::Response { data, .. } => match data {
            Some(d) => json_kind(utf8(d)) == JsonKind::Value && utf8(d) != token(Token::Null),
            None => true,
        },
    }
}

/// The payload that carries `m`.
#[verifier::opaque]
pub open spec fn payload_of(m: MessageModel) -> Seq<u8> {
    match m {
        MessageModel::Handshake { agent_id, agent_name, timestamp } => token(Token::HandshakeHead)
            + quoted(uuid_ascii(agent_id)) + token(Token::NameKey) + quoted(utf8(agent_name))
            + token(Token::TimestampKey) + quoted(utf8(timestamp)) + token(Token::Close),
        MessageModel::Heartbeat { agent_id, timestamp } => token(Token::HeartbeatHead) + quoted(
            uuid_ascii(agent_id),
        ) + token(Token::TimestampKey) + quoted(utf8(timestamp)) + token(Token::Close),
        MessageModel::MetricsShare { agent_id, timestamp, metrics } => token(
            Token::MetricsShareHead,
        ) + quoted(uuid_ascii(agent_id)) + token(Token::TimestampKey) + quoted(utf8(timestamp))
            + token(Token::MetricsKey) + utf8(metrics) + token(Token::Close),
        MessageModel::MetricsRequest { agent_id, timestamp } => token(Token::MetricsRequestHead)
            + quoted(uuid_ascii(agent_id)) + token(Token::TimestampKey) + quoted(utf8(timestamp))
            + token(Token::Close),
        MessageModel::Response { success, message, data } => token(Token::ResponseHead) + token(
            if success {
                Token::True
            } else {
                Token::False
            },
        ) + token(Token::MessageKey) + quoted(utf8(message)) + token(Token::DataKey) + match data {
            Some(d) => utf8(d),
            None => token(Token::Null),
        } + token(Token::Close),
    }
}

/// Appends `b` to `out`.
pub fn push_all(out: &mut Vec<u8>, b: &[u8])
    ensures
        final(out)@ == old(out)@ + b@,
{
    let ghost start = out@;
    let mut i: usize = 0;
    while i < b.len()
        invariant
            i <= b@.len(),
            out@ == start + b@.subrange(0, i as int),
        decreases b@.len() - i,
    {
        out.push(b[i]);
        i = i + 1;
        assert(b@.subrange(0, i as int) =~= b@.subrange(0, i - 1) + seq![b@[i - 1]]);
    }
    assert(b@.subrange(0, b@.len() as int) =~= b@);
}

fn push_token(out: &mut Vec<u8>, t: Token)
    ensures
        final(out)@ == old(out)@ + token(t),
{
    let b = token_bytes(t);
    push_all(out, &b);
}

fn push_quoted(out: &mut Vec<u8>, s: &[u8])
    ensures
        final(out)@ == old(out)@ + quoted(s@),
{
    escape_into(out, s);
    out.push(0x22);
    assert(out@ =~= old(out)@ + quoted(s@));
}

fn push_id(out: &mut Vec<u8>, id: &[u8; 16])
    ensures
        final(out)@ == old(out)@ + quoted(uuid_ascii(id@)),
{
    let t = agent_id_ascii(id);
    push_quoted(out, &t);
}

fn push_text(out: &mut Vec<u8>, s: &String)
    ensures
        final(out)@ == old(out)@ + quoted(utf8(s@)),
{
    push_quoted(out, s.as_str().as_bytes());
}

fn push_raw(out: &mut Vec<u8>, s: &String)
    ensures
        final(out)@ == old(out)@ + utf8(s@),
{
    push_all(out, s.as_str().as_bytes());
}

/// The payload that carries `m`: compact JSON, `type` first, then the fields in order.
pub fn encode_payload(m: &P2PMessage) -> (r: Vec<u8>)
    ensures
        r@ == payload_of(m@),
{
    proof {
        reveal(payload_of);
    }
    let mut out: Vec<u8> = Vec::new();
    match m {
        P2PMessage::Handshake { agent_id, agent_name, timestamp } => {
            push_token(&mut out, Token::HandshakeHead);
            push_id(&mut out, agent_id);
            push_token(&mut out, Token::NameKey);
            push_text(&mut out, agent_name);
            push_token(&mut out, Token::TimestampKey);
            push_text(&mut out, timestamp);
        },
        P2PMessage::Heartbeat { agent_id, timestamp } => {
            push_token(&mut out, Token::HeartbeatHead);
            push_id(&mut out, agent_id);
            push_token(&mut out, Token::TimestampKey);
            push_text(&mut out, timestamp);
        },
        P2PMessage::MetricsShare { agent_id, timestamp, metrics } => {
            push_token(&mut out, Token::MetricsShareHead);
            push_id(&mut out, agent_id);
            push_token(&mut out, Token::TimestampKey);
            push_text(&mut out, timestamp);
            push_token(&mut out, Token::MetricsKey);
            push_raw(&mut out, metrics);
        },
        P2PMessage::MetricsRequest { agent_id, timestamp } => {
            push_token(&mut out, Token::MetricsRequestHead);
            push_id(&mut out, agent_id);
            push_token(&mut out, Token::TimestampKey);
            push_text(&mut out, timestamp);
        },
        P2PMessage::Response { success, message, data } => {
            push_token(&mut out, Token::ResponseHead);
            push_token(&mut out, if *success { Token::True } else { Token::False });
            push_token(&mut out, Token::MessageKey);
            push_text(&mut out, message);
            push_token(&mut out, Token::DataKey);
            match data {
                Some(d) => push_raw(&mut out, d),
                None => push_token(&mut out, Token::Null),
            }
        },
    }
    push_token(&mut out, Token::Close);
    assert(out@ =~= payload_of(m@));
    out
}


/// `b` after the piece `l`, when it starts with `l`.
pub open spec fn lit_then(b: Seq<u8>, l: Seq<u8>) -> Option<Seq<u8>> {
    if b.len() >= l.len() && b.subrange(0, l.len() as int) == l {
        Some(b.skip(l.len() as int))
    } else {
        None
    }
}

/// The bytes of the quoted string at the front of `b` (its opening quote already
/// read), and what follows its closing quote.
pub open spec fn str_then(b: Seq<u8>) -> Option<(Seq<u8>, Seq<u8>)> {
    match unescape(b) {
        Some((s, n)) => Some((s, b.skip(n as int))),
        None => None,
    }
}

/// An identifier in text form at the front of `b`, and what follows.
pub open spec fn id_field(b: Seq<u8>) -> Option<(Seq<u8>, Seq<u8>)> {
    match str_then(b) {
        Some((s, r)) => if is_uuid_ascii(s) {
            Some((uuid_bytes_of(s), r))
        } else {
            None
        },
        None => None,
    }
}

/// A text at the front of `b`, and what follows.
pub open spec fn text_field(b: Seq<u8>) -> Option<(Seq<char>, Seq<u8>)> {
    match str_then(b) {
        Some((s, r)) => if valid_utf8(s) {
            Some((decode_utf8(s), r))
        } else {
            None
        },
        None => None,
    }
}

/// The piece `t`, then a text; the text and what follows.
pub open spec fn keyed_text(b: Seq<u8>, t: Token) -> Option<(Seq<char>, Seq<u8>)> {
    match lit_then(b, token(t)) {
        Some(r) => text_field(r),
        None => None,
    }
}

/// The timestamp field, and what follows.
pub open spec fn timestamp_field(b: Seq<u8>) -> Option<(Seq<char>, Seq<u8>)> {
    match keyed_text(b, Token::TimestampKey) {
        Some((ts, r)) => if is_timestamp_text(ts) {
            Some((ts, r))
        } else {
            None
        },
        None => None,
    }
}

/// JSON text that runs to the closing brace at the end of `b`, when it is UTF-8;
/// with how it parses.
pub open spec fn raw_tail(b: Seq<u8>) -> Option<(Seq<char>, JsonKind)> {
    if b.len() >= 1 && b.last() == 0x7d && valid_utf8(b.drop_last()) {
        Some((decode_utf8(b.drop_last()), json_kind(b.drop_last())))
    } else {
        None
    }
}

/// The fields after the head of a message that carries an identifier and a timestamp:
/// the identifier, the timestamp, and what follows.
pub open spec fn id_and_time(b: Seq<u8>) -> Option<(Seq<u8>, Seq<char>, Seq<u8>)> {
    match id_field(b) {
        Some((id, r)) => match timestamp_field(r) {
            Some((ts, r2)) => Some((id, ts, r2)),
            None => None,
        },
        None => None,
    }
}

/// The fields of a handshake after its head, up to the closing brace.
pub open spec fn parse_handshake(b: Seq<u8>) -> Option<MessageModel> {
    match id_field(b) {
        Some((id, r1)) => match keyed_text(r1, Token::NameKey) {
            Some((name, r2)) => match timestamp_field(r2) {
                Some((ts, r3)) => if r3 == token(Token::Close) {
                    Some(MessageModel::Handshake { agent_id: id, agent_name: name, timestamp: ts })
                } else {
                    None
                },
                None => None,
            },
            None => None,
        },
        None => None,
    }
}

/// The fields of a heartbeat after its head, up to the closing brace.
pub open spec fn parse_heartbeat(b: Seq<u8>) -> Option<MessageModel> {
    match id_and_time(b) {
        Some((id, ts, r)) => if r == token(Token::Close) {
            Some(MessageModel::Heartbeat { agent_id: id, timestamp: ts })
        } else {
            None
        },
        None => None,
    }
}

/// The fields of a metrics request after its head, up to the closing brace.
pub open spec fn parse_metrics_request(b: Seq<u8>) -> Option<MessageModel> {
    match id_and_time(b) {
        Some((id, ts, r)) => if r == token(Token::Close) {
            Some(MessageModel::MetricsRequest { agent_id: id, timestamp: ts })
        } else {
            None
        },
        None => None,
    }
}

/// The fields of a metrics share after its head, up to the closing brace.
pub open spec fn parse_metrics_share(b: Seq<u8>) -> Option<MessageModel> {
    match id_and_time(b) {
        Some((id, ts, r1)) => match lit_then(r1, token(Token::MetricsKey)) {
            Some(r2) => match raw_tail(r2) {
                Some((metrics, kind)) => if kind != JsonKind::Invalid {
                    Some(MessageModel::MetricsShare { agent_id: id, timestamp: ts, metrics })
                } else {
                    None
                },
                None => None,
            },
            None => None,
        },
        None => None,
    }
}

/// The data of a response: `null`, or JSON text other than `null`, then the closing brace.
pub open spec fn data_part(b: Seq<u8>) -> Option<Option<Seq<char>>> {
    if b == token(Token::Null) + token(Token::Close) {
        Some(None)
    } else {
        match raw_tail(b) {
            Some((d, kind)) => if kind == JsonKind::Value {
                Some(Some(d))
            } else {
                None
            },
            None => None,
        }
    }
}

/// Whether a response succeeded, and what follows the flag.
pub open spec fn flag_part(b: Seq<u8>) -> Option<(bool, Seq<u8>)> {
    match lit_then(b, token(Token::True)) {
        Some(r) => Some((true, r)),
        None => match lit_then(b, token(Token::False)) {
            Some(r) => Some((false, r)),
            None => None,
        },
    }
}

/// The fields of a response after its head, up to the closing brace.
pub open spec fn parse_response(b: Seq<u8>) -> Option<MessageModel> {
    match flag_part(b) {
        Some((success, r1)) => match keyed_text(r1, Token::MessageKey) {
            Some((message, r2)) => match lit_then(r2, token(Token::DataKey)) {
                Some(r3) => match data_part(r3) {
                    Some(data) => Some(MessageModel::Response { success, message, data }),
                    None => None,
                },
                None => None,
            },
            None => None,
        },
        None => None,
    }
}

/// The message that a payload carries, or `None` when the payload is not one.
#[verifier::opaque]
pub open spec fn parse_payload(b: Seq<u8>) -> Option<MessageModel> {
    match lit_then(b, token(Token::HandshakeHead)) {
        Some(r) => parse_handshake(r),
        None => match lit_then(b, token(Token::HeartbeatHead)) {
            Some(r) => parse_heartbeat(r),
            None => match lit_then(b, token(Token::MetricsShareHead)) {
                Some(r) => parse_metrics_share(r),
                None => match lit_then(b, token(Token::MetricsRequestHead)) {
                    Some(r) => parse_metrics_request(r),
                    None => match lit_then(b, token(Token::ResponseHead)) {
                        Some(r) => parse_response(r),
                        None => None,
                    },
                },
            },
        },
    }
}

fn lit_at(b: &[u8], i: usize, t: Token) -> (r: Option<usize>)
    requires
        i <= b@.len(),
    ensures
        match r {
            Some(j) => j <= b@.len() && lit_then(b@.skip(i as int), token(t)) == Some(b@.skip(j as int)),
            None => lit_then(b@.skip(i as int), token(t)) is None,
        },
{
    let l = token_bytes(t);
    let blen = b.len();
    if blen - i < l.len() {
        return None;
    }
    let mut k: usize = 0;
    while k < l.len()
        invariant
            blen == b@.len(),
            l@ == token(t),
            i + l@.len() <= b@.len(),
            k <= l@.len(),
            forall|x: int| 0 <= x < k ==> b@[i + x] == l@[x],
        decreases l@.len() - k,
    {
        assert(i + k < b@.len());
        if b[i + k] != l[k] {
            assert(b@.skip(i as int).subrange(0, l@.len() as int)[k as int] != l@[k as int]);
            return None;
        }
        k = k + 1;
    }
    assert(b@.skip(i as int).subrange(0, l@.len() as int) =~= l@);
    assert(b@.skip(i as int).skip(l@.len() as int) =~= b@.skip(i + l@.len()));
    Some(i + l.len())
}

fn str_at(b: &[u8], i: usize) -> (r: Option<(Vec<u8>, usize)>)
    requires
        i <= b@.len(),
    ensures
        match r {
            Some((s, j)) => j <= b@.len() && str_then(b@.skip(i as int)) == Some((s@, b@.skip(j as int))),
            None => str_then(b@.skip(i as int)) is None,
        },
{
    match read_string(b, i) {
        Some((s, j)) => {
            assert(b@.skip(i as int).skip((j - i) as int) =~= b@.skip(j as int));
            Some((s, j))
        },
        None => None,
    }
}

fn id_at(b: &[u8], i: usize) -> (r: Option<([u8; 16], usize)>)
    requires
        i <= b@.len(),
    ensures
        match r {
            Some((a, j)) => j <= b@.len() && id_field(b@.skip(i as int)) == Some((a@, b@.skip(j as int))),
            None => id_field(b@.skip(i as int)) is None,
        },
{
    match str_at(b, i) {
        Some((s, j)) => match agent_id_from_ascii(&s) {
            Some(a) => Some((a, j)),
            None => None,
        },
        None => None,
    }
}

fn text_at(b: &[u8], i: usize) -> (r: Option<(String, usize)>)
    requires
        i <= b@.len(),
    ensures
        match r {
            Some((s, j)) => j <= b@.len() && text_field(b@.skip(i as int)) == Some((s@, b@.skip(j as int))),
            None => text_field(b@.skip(i as int)) is None,
        },
{
    match str_at(b, i) {
        Some((s, j)) => match utf8_text(s) {
            Some(t) => Some((t, j)),
            None => None,
        },
        None => None,
    }
}

fn keyed_text_at(b: &[u8], i: usize, t: Token) -> (r: Option<(String, usize)>)
    requires
        i <= b@.len(),
    ensures
        match r {
            Some((s, j)) => j <= b@.len() && keyed_text(b@.skip(i as int), t) == Some((s@, b@.skip(j as int))),
            None => keyed_text(b@.skip(i as int), t) is None,
        },
{
    match lit_at(b, i, t) {
        Some(j) => text_at(b, j),
        None => None,
    }
}

fn timestamp_at(b: &[u8], i: usize) -> (r: Option<(String, usize)>)
    requires
        i <= b@.len(),
    ensures
        match r {
            Some((s, j)) => j <= b@.len() && timestamp_field(b@.skip(i as int)) == Some((s@, b@.skip(j as int))),
            None => timestamp_field(b@.skip(i as int)) is None,
        },
{
    match keyed_text_at(b, i, Token::TimestampKey) {
        Some((ts, j)) => if is_timestamp(ts.as_str()) {
            Some((ts, j))
        } else {
            None
        },
        None => None,
    }
}

fn id_and_time_at(b: &[u8], i: usize) -> (r: Option<([u8; 16], String, usize)>)
    requires
        i <= b@.len(),
    ensures
        match r {
            Some((a, ts, j)) => j <= b@.len() && id_and_time(b@.skip(i as int)) == Some(
                (a@, ts@, b@.skip(j as int)),
            ),
            None => id_and_time(b@.skip(i as int)) is None,
        },
{
    match id_at(b, i) {
        Some((a, j)) => match timestamp_at(b, j) {
            Some((ts, k)) => Some((a, ts, k)),
            None => None,
        },
        None => None,
    }
}

fn raw_tail_at(b: &[u8], i: usize) -> (r: Option<(String, JsonKind)>)
    requires
        i <= b@.len(),
    ensures
        match r {
            Some((s, kind)) => raw_tail(b@.skip(i as int)) == Some((s@, kind)),
            None => raw_tail(b@.skip(i as int)) is None,
        },
{
    let ghost t = b@.skip(i as int);
    if b.len() - i < 1 || b[b.len() - 1] != 0x7d {
        return None;
    }
    let mut inner: Vec<u8> = Vec::new();
    let mut k: usize = i;
    while k < b.len() - 1
        invariant
            i <= k <= b@.len() - 1,
            inner@ == b@.subrange(i as int, k as int),
        decreases b@.len() - 1 - k,
    {
        inner.push(b[k]);
        k = k + 1;
        assert(b@.subrange(i as int, k as int) =~= b@.subrange(i as int, k - 1) + seq![b@[k - 1]]);
    }
    assert(inner@ =~= t.drop_last());
    let kind = classify_json(&inner);
    match utf8_text(inner) {
        Some(s) => Some((s, kind)),
        None => None,
    }
}

fn is_at_end(b: &[u8], i: usize, t: Token) -> (r: bool)
    requires
        i <= b@.len(),
    ensures
        r == (b@.skip(i as int) == token(t)),
{
    let ghost rest = b@.skip(i as int);
    let ghost n = token(t).len() as int;
    match lit_at(b, i, t) {
        Some(j) => {
            assert(rest.subrange(0, n) == token(t));
            assert(rest.skip(n) == b@.skip(j as int));
            assert(rest.skip(n).len() == rest.len() - n);
            assert(b@.skip(j as int).len() == b@.len() - j);
            if j == b.len() {
                assert(rest.subrange(0, n) =~= rest);
                true
            } else {
                assert(rest.len() != token(t).len());
                false
            }
        },
        None => {
            proof {
                if rest == token(t) {
                    assert(rest.subrange(0, n) =~= token(t));
                }
            }
            false
        },
    }
}

/// Why a message could not be read.
#[derive(Debug, Clone, Copy, PartialEq, Eq, Structural)]
pub enum CodecError {
    /// The stream ended before the frame did.
    ConnectionClosed,
    /// The frame does not hold a message.
    Protocol,
    /// The payload is too long for the length prefix.
    TooLarge,
}

fn decode_handshake(b: &[u8], i: usize) -> (r: Result<P2PMessage, CodecError>)
    requires
        i <= b@.len(),
    ensures
        match r {
            Ok(m) => parse_handshake(b@.skip(i as int)) == Some(m@),
            Err(e) => parse_handshake(b@.skip(i as int)) is None && e == CodecError::Protocol,
        },
{
    let (id, j) = match id_at(b, i) {
        Some(x) => x,
        None => return Err(CodecError::Protocol),
    };
    let (name, k) = match keyed_text_at(b, j, Token::NameKey) {
        Some(x) => x,
        None => return Err(CodecError::Protocol),
    };
    let (ts, l) = match timestamp_at(b, k) {
        Some(x) => x,
        None => return Err(CodecError::Protocol),
    };
    if !is_at_end(b, l, Token::Close) {
        return Err(CodecError::Protocol);
    }
    Ok(P2PMessage::Handshake { agent_id: id, agent_name: name, timestamp: ts })
}

fn decode_heartbeat(b: &[u8], i: usize) -> (r: Result<P2PMessage, CodecError>)
    requires
        i <= b@.len(),
    ensures
        match r {
            Ok(m) => parse_heartbeat(b@.skip(i as int)) == Some(m@),
            Err(e) => parse_heartbeat(b@.skip(i as int)) is None && e == CodecError::Protocol,
        },
{
    let (id, ts, j) = match id_and_time_at(b, i) {
        Some(x) => x,
        None => return Err(CodecError::Protocol),
    };
    if !is_at_end(b, j, Token::Close) {
        return Err(CodecError::Protocol);
    }
    Ok(P2PMessage::Heartbeat { agent_id: id, timestamp: ts })
}

fn decode_metrics_request(b: &[u8], i: usize) -> (r: Result<P2PMessage, CodecError>)
    requires
        i <= b@.len(),
    ensures
        match r {
            Ok(m) => parse_metrics_request(b@.skip(i as int)) == Some(m@),
            Err(e) => parse_metrics_request(b@.skip(i as int)) is None && e == CodecError::Protocol,
        },
{
    let (id, ts, j) = match id_and_time_at(b, i) {
        Some(x) => x,
        None => return Err(CodecError::Protocol),
    };
    if !is_at_end(b, j, Token::Close) {
        return Err(CodecError::Protocol);
    }
    Ok(P2PMessage::MetricsRequest { agent_id: id, timestamp: ts })
}

fn decode_metrics_share(b: &[u8], i: usize) -> (r: Result<P2PMessage, CodecError>)
    requires
        i <= b@.len(),
    ensures
        match r {
            Ok(m) => parse_metrics_share(b@.skip(i as int)) == Some(m@),
            Err(e) => parse_metrics_share(b@.skip(i as int)) is None && e == CodecError::Protocol,
        },
{
    let (id, ts, j) = match id_and_time_at(b, i) {
        Some(x) => x,
        None => return Err(CodecError::Protocol),
    };
    let k = match lit_at(b, j, Token::MetricsKey) {
        Some(x) => x,
        None => return Err(CodecError::Protocol),
    };
    let (metrics, kind) = match raw_tail_at(b, k) {
        Some(x) => x,
        None => return Err(CodecError::Protocol),
    };
    if kind == JsonKind::Invalid {
        return Err(CodecError::Protocol);
    }
    Ok(P2PMessage::MetricsShare { agent_id: id, timestamp: ts, metrics })
}

fn decode_response(b: &[u8], i: usize) -> (r: Result<P2PMessage, CodecError>)
    requires
        i <= b@.len(),
    ensures
        match r {
            Ok(m) => parse_response(b@.skip(i as int)) == Some(m@),
            Err(e) => parse_response(b@.skip(i as int)) is None && e == CodecError::Protocol,
        },
{
    let (success, j) = match lit_at(b, i, Token::True) {
        Some(x) => (true, x),
        None => match lit_at(b, i, Token::False) {
            Some(x) => (false, x),
            None => return Err(CodecError::Protocol),
        },
    };
    let (message, k) = match keyed_text_at(b, j, Token::MessageKey) {
        Some(x) => x,
        None => return Err(CodecError::Protocol),
    };
    let l = match lit_at(b, k, Token::DataKey) {
        Some(x) => x,
        None => return Err(CodecError::Protocol),
    };
    let ghost t = b@.skip(l as int);
    let ghost null_close = token(Token::Null) + token(Token::Close);
    if let Some(m) = lit_at(b, l, Token::Null) {
        if is_at_end(b, m, Token::Close) {
            proof {
                assert(t.subrange(0, 4) == token(Token::Null));
                assert(b@.skip(m as int) == t.skip(4));
                assert(t =~= t.subrange(0, 4) + t.skip(4));
            }
            return Ok(P2PMessage::Response { success, message, data: None });
        }
    }
    proof {
        if t == null_close {
            assert(t.subrange(0, 4) =~= token(Token::Null));
            assert(t.skip(4) =~= token(Token::Close));
            assert(t.skip(4) =~= b@.skip(l + 4));
        }
    }
    let (d, kind) = match raw_tail_at(b, l) {
        Some(x) => x,
        None => return Err(CodecError::Protocol),
    };
    if kind != JsonKind::Value {
        return Err(CodecError::Protocol);
    }
    Ok(P2PMessage::Response { success, message, data: Some(d) })
}

/// Reads the message that a payload carries. Only the layout that `encode_payload`
/// writes is accepted.
pub fn decode_payload(b: &[u8]) -> (r: Result<P2PMessage, CodecError>)
    ensures
        match r {
            Ok(m) => parse_payload(b@) == Some(m@),
            Err(e) => parse_payload(b@) is None && e == CodecError::Protocol,
        },
{
    proof {
        reveal(parse_payload);
    }
    assert(b@.skip(0) =~= b@);
    if let Some(i) = lit_at(b, 0, Token::HandshakeHead) {
        return decode_handshake(b, i);
    }
    if let Some(i) = lit_at(b, 0, Token::HeartbeatHead) {
        return decode_heartbeat(b, i);
    }
    if let Some(i) = lit_at(b, 0, Token::MetricsShareHead) {
        return decode_metrics_share(b, i);
    }
    if let Some(i) = lit_at(b, 0, Token::MetricsRequestHead) {
        return decode_metrics_request(b, i);
    }
    if let Some(i) = lit_at(b, 0, Token::ResponseHead) {
        return decode_response(b, i);
    }
    Err(CodecError::Protocol)
}


proof fn lemma_lit_then(l: Seq<u8>, x: Seq<u8>)
    ensures
        lit_then(l + x, l) == Some(x),
{
    assert((l + x).subrange(0, l.len() as int) =~= l);
    assert((l + x).skip(l.len() as int) =~= x);
}

proof fn lemma_lit_mismatch(l: Seq<u8>, m: Seq<u8>, x: Seq<u8>, k: int)
    requires
        0 <= k < l.len(),
        k < m.len(),
        l[k] != m[k],
    ensures
        lit_then(l + x, m) is None,
{
    if (l + x).len() >= m.len() {
        assert((l + x).subrange(0, m.len() as int)[k] != m[k]);
    }
}

proof fn lemma_str_then(s: Seq<u8>, x: Seq<u8>)
    ensures
        str_then(quoted(s) + x) == Some((s, x)),
{
    lemma_unescape_escape(s, x);
    assert(quoted(s) + x =~= escape(s) + seq![0x22u8] + x);
    assert((quoted(s) + x).skip(escape(s).len() + 1int) =~= x);
}

proof fn lemma_id_field(id: Seq<u8>, x: Seq<u8>)
    requires
        id.len() == 16,
    ensures
        id_field(quoted(uuid_ascii(id)) + x) == Some((id, x)),
{
    lemma_str_then(uuid_ascii(id), x);
    lemma_uuid_bytes_of_ascii(id);
}

proof fn lemma_text_field(v: Seq<char>, x: Seq<u8>)
    ensures
        text_field(quoted(utf8(v)) + x) == Some((v, x)),
{
    lemma_str_then(utf8(v), x);
    encode_utf8_valid_utf8(v);
    encode_utf8_decode_utf8(v);
}

proof fn lemma_keyed_text(t: Token, v: Seq<char>, x: Seq<u8>)
    ensures
        keyed_text(token(t) + quoted(utf8(v)) + x, t) == Some((v, x)),
{
    assert(token(t) + quoted(utf8(v)) + x =~= token(t) + (quoted(utf8(v)) + x));
    lemma_lit_then(token(t), quoted(utf8(v)) + x);
    lemma_text_field(v, x);
}

proof fn lemma_id_and_time(id: Seq<u8>, ts: Seq<char>, x: Seq<u8>)
    requires
        id.len() == 16,
        is_timestamp_text(ts),
    ensures
        id_and_time(quoted(uuid_ascii(id)) + token(Token::TimestampKey) + quoted(utf8(ts)) + x)
            == Some((id, ts, x)),
{
    let rest = token(Token::TimestampKey) + quoted(utf8(ts)) + x;
    assert(quoted(uuid_ascii(id)) + token(Token::TimestampKey) + quoted(utf8(ts)) + x
        =~= quoted(uuid_ascii(id)) + rest);
    lemma_id_field(id, rest);
    lemma_keyed_text(Token::TimestampKey, ts, x);
}

proof fn lemma_raw_tail(v: Seq<char>)
    ensures
        raw_tail(utf8(v) + token(Token::Close)) == Some((v, json_kind(utf8(v)))),
{
    let b = utf8(v) + token(Token::Close);
    assert(b.drop_last() =~= utf8(v));
    encode_utf8_valid_utf8(v);
    encode_utf8_decode_utf8(v);
}

proof fn lemma_round_trip_handshake(agent_id: Seq<u8>, agent_name: Seq<char>, timestamp: Seq<char>)
    requires
        valid_message(MessageModel::Handshake { agent_id, agent_name, timestamp }),
    ensures
        parse_payload(payload_of(MessageModel::Handshake { agent_id, agent_name, timestamp })) == Some(MessageModel::Handshake { agent_id, agent_name, timestamp }),
{
    let m = MessageModel::Handshake { agent_id, agent_name, timestamp };
    reveal(parse_payload);
    reveal(payload_of);
    let b = payload_of(m);
    let hs = token(Token::HandshakeHead);
    let r3 = token(Token::Close);
    let r2 = token(Token::TimestampKey) + quoted(utf8(timestamp)) + r3;
    let r1 = token(Token::NameKey) + quoted(utf8(agent_name)) + r2;
    let r0 = quoted(uuid_ascii(agent_id)) + r1;
    assert(b =~= hs + r0);
    lemma_lit_then(hs, r0);
    lemma_id_field(agent_id, r1);
    lemma_keyed_text(Token::NameKey, agent_name, r2);
    lemma_keyed_text(Token::TimestampKey, timestamp, r3);
}

proof fn lemma_round_trip_heartbeat(agent_id: Seq<u8>, timestamp: Seq<char>)
    requires
        valid_message(MessageModel::Heartbeat { agent_id, timestamp }),
    ensures
        parse_payload(payload_of(MessageModel::Heartbeat { agent_id, timestamp })) == Some(MessageModel::Heartbeat { agent_id, timestamp }),
{
    let m = MessageModel::Heartbeat { agent_id, timestamp };
    reveal(parse_payload);
    reveal(payload_of);
    let b = payload_of(m);
    let hb = token(Token::HeartbeatHead);
    let close = token(Token::Close);
    let r0 = quoted(uuid_ascii(agent_id)) + token(Token::TimestampKey) + quoted(utf8(timestamp)) + close;
    assert(b =~= hb + r0);
    lemma_lit_mismatch(hb, token(Token::HandshakeHead), r0, 10);
    lemma_lit_then(hb, r0);
    lemma_id_and_time(agent_id, timestamp, close);
}

proof fn lemma_round_trip_metrics_share(agent_id: Seq<u8>, timestamp: Seq<char>, metrics: Seq<char>)
    requires
        valid_message(MessageModel::MetricsShare { agent_id, timestamp, metrics }),
    ensures
        parse_payload(payload_of(MessageModel::MetricsShare { agent_id, timestamp, metrics })) == Some(MessageModel::MetricsShare { agent_id, timestamp, metrics }),
{
    let m = MessageModel::MetricsShare { agent_id, timestamp, metrics };
    reveal(parse_payload);
    reveal(payload_of);
    let b = payload_of(m);
    let ms = token(Token::MetricsShareHead);
    let r2 = utf8(metrics) + token(Token::Close);
    let r1 = token(Token::MetricsKey) + r2;
    let r0 = quoted(uuid_ascii(agent_id)) + token(Token::TimestampKey) + quoted(utf8(timestamp)) + r1;
    assert(b =~= ms + r0);
    lemma_lit_mismatch(ms, token(Token::HandshakeHead), r0, 9);
    lemma_lit_mismatch(ms, token(Token::HeartbeatHead), r0, 9);
    lemma_lit_then(ms, r0);
    lemma_id_and_time(agent_id, timestamp, r1);
    lemma_lit_then(token(Token::MetricsKey), r2);
    lemma_raw_tail(metrics);
}

proof fn lemma_round_trip_metrics_request(agent_id: Seq<u8>, timestamp: Seq<char>)
    requires
        valid_message(MessageModel::MetricsRequest { agent_id, timestamp }),
    ensures
        parse_payload(payload_of(MessageModel::MetricsRequest { agent_id, timestamp })) == Some(MessageModel::MetricsRequest { agent_id, timestamp }),
{
    let m = MessageModel::MetricsRequest { agent_id, timestamp };
    reveal(parse_payload);
    reveal(payload_of);
    let b = payload_of(m);
    let mr = token(Token::MetricsRequestHead);
    let close = token(Token::Close);
    let r0 = quoted(uuid_ascii(agent_id)) + token(Token::TimestampKey) + quoted(utf8(timestamp)) + close;
    assert(b =~= mr + r0);
    lemma_lit_mismatch(mr, token(Token::HandshakeHead), r0, 9);
    lemma_lit_mismatch(mr, token(Token::HeartbeatHead), r0, 9);
    lemma_lit_mismatch(mr, token(Token::MetricsShareHead), r0, 16);
    lemma_lit_then(mr, r0);
    lemma_id_and_time(agent_id, timestamp, close);
}

proof fn lemma_data_part(data: Option<Seq<char>>)
    requires
        data matches Some(d) ==> json_kind(utf8(d)) == JsonKind::Value && utf8(d) != token(Token::Null),
    ensures
        data_part(match data {
            Some(d) => utf8(d),
            None => token(Token::Null),
        } + token(Token::Close)) == Some(data),
{
    let close = token(Token::Close);
    if let Some(d) = data {
        let tail = utf8(d) + close;
        if tail == token(Token::Null) + close {
            assert(utf8(d) =~= tail.drop_last());
            assert(tail.drop_last() =~= token(Token::Null));
        }
        lemma_raw_tail(d);
    }
}

proof fn lemma_flag_part(success: bool, x: Seq<u8>)
    ensures
        flag_part(token(if success { Token::True } else { Token::False }) + x) == Some((success, x)),
{
    let flag = if success { Token::True } else { Token::False };
    lemma_lit_then(token(flag), x);
    if !success {
        lemma_lit_mismatch(token(Token::False), token(Token::True), x, 0);
    }
}

proof fn lemma_response_dispatch(r0: Seq<u8>)
    ensures
        parse_payload(token(Token::ResponseHead) + r0) == parse_response(r0),
{
    reveal(parse_payload);
    let rs = token(Token::ResponseHead);
    lemma_lit_mismatch(rs, token(Token::HandshakeHead), r0, 9);
    lemma_lit_mismatch(rs, token(Token::HeartbeatHead), r0, 9);
    lemma_lit_mismatch(rs, token(Token::MetricsShareHead), r0, 9);
    lemma_lit_mismatch(rs, token(Token::MetricsRequestHead), r0, 9);
    lemma_lit_then(rs, r0);
}

proof fn lemma_response_body(success: bool, message: Seq<char>, data: Option<Seq<char>>)
    requires
        valid_message(MessageModel::Response { success, message, data }),
    ensures
        parse_response(
            token(if success { Token::True } else { Token::False }) + (token(Token::MessageKey)
                + quoted(utf8(message)) + (token(Token::DataKey) + (match data {
                Some(d) => utf8(d),
                None => token(Token::Null),
            } + token(Token::Close)))),
        ) == Some(MessageModel::Response { success, message, data }),
{
    let tail = match data {
        Some(d) => utf8(d),
        None => token(Token::Null),
    } + token(Token::Close);
    let r2 = token(Token::DataKey) + tail;
    let r1 = token(Token::MessageKey) + quoted(utf8(message)) + r2;
    lemma_flag_part(success, r1);
    lemma_keyed_text(Token::MessageKey, message, r2);
    lemma_lit_then(token(Token::DataKey), tail);
    lemma_data_part(data);
}

proof fn lemma_round_trip_response(success: bool, message: Seq<char>, data: Option<Seq<char>>)
    requires
        valid_message(MessageModel::Response { success, message, data }),
    ensures
        parse_payload(payload_of(MessageModel::Response { success, message, data })) == Some(MessageModel::Response { success, message, data }),
{
    reveal(payload_of);
    let m = MessageModel::Response { success, message, data };
    let tail = match data {
        Some(d) => utf8(d),
        None => token(Token::Null),
    } + token(Token::Close);
    let r0 = token(if success { Token::True } else { Token::False }) + (token(Token::MessageKey)
        + quoted(utf8(message)) + (token(Token::DataKey) + tail));
    assert(payload_of(m) =~= token(Token::ResponseHead) + r0);
    lemma_response_dispatch(r0);
    lemma_response_body(success, message, data);
}

/// A payload read back yields the message it was written from.
pub proof fn lemma_payload_round_trip(m: MessageModel)
    requires
        valid_message(m),
    ensures
        parse_payload(payload_of(m)) == Some(m),
{
    match m {
        MessageModel::Handshake { agent_id, agent_name, timestamp } => lemma_round_trip_handshake(
            agent_id,
            agent_name,
            timestamp,
        ),
        MessageModel::Heartbeat { agent_id, timestamp } => lemma_round_trip_heartbeat(agent_id, timestamp),
        MessageModel::MetricsShare { agent_id, timestamp, metrics } => lemma_round_trip_metrics_share(
            agent_id,
            timestamp,
            metrics,
        ),
        MessageModel::MetricsRequest { agent_id, timestamp } => lemma_round_trip_metrics_request(
            agent_id,
            timestamp,
        ),
        MessageModel::Response { success, message, data } => lemma_round_trip_response(
            success,
            message,
            data,
        ),
    }
}


proof fn lemma_lit_then_inv(b: Seq<u8>, l: Seq<u8>)
    requires
        lit_then(b, l) is Some,
    ensures
        b == l + lit_then(b, l).unwrap(),
{
    assert(b =~= b.subrange(0, l.len() as int) + b.skip(l.len() as int));
}

proof fn lemma_str_then_inv(b: Seq<u8>)
    requires
        str_then(b) is Some,
    ensures
        b == quoted(str_then(b).unwrap().0) + str_then(b).unwrap().1,
{
    lemma_unescape_canonical(b);
    let (s, n) = unescape(b).unwrap();
    assert(b =~= b.subrange(0, n as int) + b.skip(n as int));
}

proof fn lemma_id_field_inv(b: Seq<u8>)
    requires
        id_field(b) is Some,
    ensures
        b == quoted(uuid_ascii(id_field(b).unwrap().0)) + id_field(b).unwrap().1,
        id_field(b).unwrap().0.len() == 16,
{
    lemma_str_then_inv(b);
}

proof fn lemma_text_field_inv(b: Seq<u8>)
    requires
        text_field(b) is Some,
    ensures
        b == quoted(utf8(text_field(b).unwrap().0)) + text_field(b).unwrap().1,
{
    lemma_str_then_inv(b);
    decode_utf8_encode_utf8(str_then(b).unwrap().0);
}

proof fn lemma_keyed_text_inv(b: Seq<u8>, t: Token)
    requires
        keyed_text(b, t) is Some,
    ensures
        b == token(t) + quoted(utf8(keyed_text(b, t).unwrap().0)) + keyed_text(b, t).unwrap().1,
{
    lemma_lit_then_inv(b, token(t));
    let r = lit_then(b, token(t)).unwrap();
    lemma_text_field_inv(r);
    assert(token(t) + (quoted(utf8(text_field(r).unwrap().0)) + text_field(r).unwrap().1)
        =~= token(t) + quoted(utf8(text_field(r).unwrap().0)) + text_field(r).unwrap().1);
}

proof fn lemma_id_and_time_inv(b: Seq<u8>)
    requires
        id_and_time(b) is Some,
    ensures
        ({
            let (id, ts, r) = id_and_time(b).unwrap();
            &&& b == quoted(uuid_ascii(id)) + token(Token::TimestampKey) + quoted(utf8(ts)) + r
            &&& id.len() == 16
            &&& is_timestamp_text(ts)
        }),
{
    lemma_id_field_inv(b);
    let (id, r1) = id_field(b).unwrap();
    lemma_keyed_text_inv(r1, Token::TimestampKey);
    let (ts, r2) = keyed_text(r1, Token::TimestampKey).unwrap();
    assert(quoted(uuid_ascii(id)) + (token(Token::TimestampKey) + quoted(utf8(ts)) + r2)
        =~= quoted(uuid_ascii(id)) + token(Token::TimestampKey) + quoted(utf8(ts)) + r2);
}

proof fn lemma_raw_tail_inv(b: Seq<u8>)
    requires
        raw_tail(b) is Some,
    ensures
        b == utf8(raw_tail(b).unwrap().0) + token(Token::Close),
        raw_tail(b).unwrap().1 == json_kind(utf8(raw_tail(b).unwrap().0)),
{
    decode_utf8_encode_utf8(b.drop_last());
    assert(b =~= b.drop_last() + token(Token::Close));
}

proof fn lemma_data_part_inv(b: Seq<u8>)
    requires
        data_part(b) is Some,
    ensures
        b == match data_part(b).unwrap() {
            Some(d) => utf8(d),
            None => token(Token::Null),
        } + token(Token::Close),
        data_part(b).unwrap() matches Some(d) ==> json_kind(utf8(d)) == JsonKind::Value && utf8(d)
            != token(Token::Null),
{
    if b != token(Token::Null) + token(Token::Close) {
        lemma_raw_tail_inv(b);
    }
}

proof fn lemma_flag_part_inv(b: Seq<u8>)
    requires
        flag_part(b) is Some,
    ensures
        b == token(if flag_part(b).unwrap().0 { Token::True } else { Token::False }) + flag_part(b).unwrap().1,
{
    if lit_then(b, token(Token::True)) is Some {
        lemma_lit_then_inv(b, token(Token::True));
    } else {
        lemma_lit_then_inv(b, token(Token::False));
    }
}

proof fn lemma_parse_handshake_inv(r: Seq<u8>)
    requires
        parse_handshake(r) is Some,
    ensures
        valid_message(parse_handshake(r).unwrap()),
        payload_of(parse_handshake(r).unwrap()) == token(Token::HandshakeHead) + r,
{
    reveal(payload_of);
    lemma_id_field_inv(r);
    let (id, r1) = id_field(r).unwrap();
    lemma_keyed_text_inv(r1, Token::NameKey);
    let (name, r2) = keyed_text(r1, Token::NameKey).unwrap();
    lemma_keyed_text_inv(r2, Token::TimestampKey);
    let (ts, r3) = keyed_text(r2, Token::TimestampKey).unwrap();
    assert(token(Token::HandshakeHead) + r =~= token(Token::HandshakeHead) + quoted(uuid_ascii(id))
        + token(Token::NameKey) + quoted(utf8(name)) + token(Token::TimestampKey) + quoted(utf8(ts)) + r3);
}

proof fn lemma_parse_short_inv(r: Seq<u8>, head: Token)
    requires
        id_and_time(r) is Some,
        id_and_time(r).unwrap().2 == token(Token::Close),
        head == Token::HeartbeatHead || head == Token::MetricsRequestHead,
    ensures
        ({
            let (id, ts, _) = id_and_time(r).unwrap();
            let m = if head == Token::HeartbeatHead {
                MessageModel::Heartbeat { agent_id: id, timestamp: ts }
            } else {
                MessageModel::MetricsRequest { agent_id: id, timestamp: ts }
            };
            valid_message(m) && payload_of(m) == token(head) + r
        }),
{
    reveal(payload_of);
    lemma_id_and_time_inv(r);
    let (id, ts, r1) = id_and_time(r).unwrap();
    assert(token(head) + r =~= token(head) + quoted(uuid_ascii(id)) + token(Token::TimestampKey)
        + quoted(utf8(ts)) + token(Token::Close));
}

proof fn lemma_parse_metrics_share_inv(r: Seq<u8>)
    requires
        parse_metrics_share(r) is Some,
    ensures
        valid_message(parse_metrics_share(r).unwrap()),
        payload_of(parse_metrics_share(r).unwrap()) == token(Token::MetricsShareHead) + r,
{
    reveal(payload_of);
    lemma_id_and_time_inv(r);
    let (id, ts, r1) = id_and_time(r).unwrap();
    lemma_lit_then_inv(r1, token(Token::MetricsKey));
    let r2 = lit_then(r1, token(Token::MetricsKey)).unwrap();
    lemma_raw_tail_inv(r2);
    let (metrics, kind) = raw_tail(r2).unwrap();
    assert(token(Token::MetricsShareHead) + r =~= token(Token::MetricsShareHead) + quoted(uuid_ascii(id))
        + token(Token::TimestampKey) + quoted(utf8(ts)) + token(Token::MetricsKey) + utf8(metrics)
        + token(Token::Close));
}

proof fn lemma_response_payload(m: MessageModel)
    requires
        m is Response,
    ensures
        payload_of(m) == token(Token::ResponseHead) + token(
            if m->Response_success { Token::True } else { Token::False },
        ) + token(Token::MessageKey) + quoted(utf8(m->Response_message)) + token(Token::DataKey) + match m->Response_data {
            Some(d) => utf8(d),
            None => token(Token::Null),
        } + token(Token::Close),
{
    reveal(payload_of);
}

proof fn lemma_response_bytes(
    r: Seq<u8>,
    flag: Seq<u8>,
    r1: Seq<u8>,
    msg: Seq<u8>,
    r2: Seq<u8>,
    tail: Seq<u8>,
    r3: Seq<u8>,
)
    requires
        r == flag + r1,
        r1 == token(Token::MessageKey) + msg + r2,
        r2 == token(Token::DataKey) + r3,
        r3 == tail + token(Token::Close),
    ensures
        token(Token::ResponseHead) + r == token(Token::ResponseHead) + flag + token(Token::MessageKey) + msg
            + token(Token::DataKey) + tail + token(Token::Close),
{
    assert(token(Token::ResponseHead) + r =~= token(Token::ResponseHead) + flag + token(Token::MessageKey)
        + msg + token(Token::DataKey) + tail + token(Token::Close));
}

proof fn lemma_parse_response_inv(r: Seq<u8>)
    requires
        parse_response(r) is Some,
    ensures
        valid_message(parse_response(r).unwrap()),
        payload_of(parse_response(r).unwrap()) == token(Token::ResponseHead) + r,
{
    lemma_flag_part_inv(r);
    let (success, r1) = flag_part(r).unwrap();
    lemma_keyed_text_inv(r1, Token::MessageKey);
    let (message, r2) = keyed_text(r1, Token::MessageKey).unwrap();
    lemma_lit_then_inv(r2, token(Token::DataKey));
    let r3 = lit_then(r2, token(Token::DataKey)).unwrap();
    lemma_data_part_inv(r3);
    let data = data_part(r3).unwrap();
    let m = MessageModel::Response { success, message, data };
    assert(parse_response(r) == Some(m));
    lemma_response_payload(m);
    let tail = match data {
        Some(d) => utf8(d),
        None => token(Token::Null),
    };
    lemma_response_bytes(r, token(if success { Token::True } else { Token::False }), r1, quoted(utf8(message)), r2, tail, r3);
}

/// The decoder accepts nothing but encodings: a payload that reads as a message
/// is a valid message, and is exactly the payload that this message is written as.
pub proof fn lemma_payload_canonical(b: Seq<u8>)
    requires
        parse_payload(b) is Some,
    ensures
        valid_message(parse_payload(b).unwrap()),
        payload_of(parse_payload(b).unwrap()) == b,
{
    reveal(parse_payload);
    if lit_then(b, token(Token::HandshakeHead)) is Some {
        lemma_lit_then_inv(b, token(Token::HandshakeHead));
        lemma_parse_handshake_inv(lit_then(b, token(Token::HandshakeHead)).unwrap());
    } else if lit_then(b, token(Token::HeartbeatHead)) is Some {
        lemma_lit_then_inv(b, token(Token::HeartbeatHead));
        lemma_parse_short_inv(lit_then(b, token(Token::HeartbeatHead)).unwrap(), Token::HeartbeatHead);
    } else if lit_then(b, token(Token::MetricsShareHead)) is Some {
        lemma_lit_then_inv(b, token(Token::MetricsShareHead));
        lemma_parse_metrics_share_inv(lit_then(b, token(Token::MetricsShareHead)).unwrap());
    } else if lit_then(b, token(Token::MetricsRequestHead)) is Some {
        lemma_lit_then_inv(b, token(Token::MetricsRequestHead));
        lemma_parse_short_inv(lit_then(b, token(Token::MetricsRequestHead)).unwrap(), Token::MetricsRequestHead);
    } else {
        lemma_lit_then_inv(b, token(Token::ResponseHead));
        lemma_parse_response_inv(lit_then(b, token(Token::ResponseHead)).unwrap());
    }
}

} // verus!
