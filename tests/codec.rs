use agent_transport::codec::{decode_message, encode_message};
use agent_transport::frame::{declared_length, decode_frame, encode_frame, length_prefix, FrameError};
use agent_transport::ids::agent_id_from_ascii;
use agent_transport::json::{escape_into, read_string};
use agent_transport::message::{decode_payload, encode_payload, CodecError, P2PMessage};

const ID_A: [u8; 16] = [
    0x93, 0x6d, 0xa0, 0x1f, 0x9a, 0xbd, 0x4d, 0x9d, 0x80, 0xc7, 0x02, 0xaf, 0x85, 0xc8, 0x22, 0xa8,
];
const TS: &str = "2024-05-01T12:30:00.123456789Z";

fn samples() -> Vec<P2PMessage> {
    vec![
        P2PMessage::Handshake { agent_id: ID_A, agent_name: "node \"one\"\n\u{1}é".to_string(), timestamp: TS.to_string() },
        P2PMessage::Heartbeat { agent_id: ID_A, timestamp: TS.to_string() },
        P2PMessage::MetricsShare { agent_id: ID_A, timestamp: TS.to_string(), metrics: "{\"cpu\":[1,2.5],\"ok\":true}".to_string() },
        P2PMessage::MetricsRequest { agent_id: [0; 16], timestamp: TS.to_string() },
        P2PMessage::Response { success: false, message: "reason".to_string(), data: None },
        P2PMessage::Response { success: true, message: "".to_string(), data: Some("{\"status\":\"ok\"}".to_string()) },
    ]
}

fn same(a: &P2PMessage, b: &P2PMessage) -> bool {
    format!("{:?}", a) == format!("{:?}", b)
}

#[test]
fn every_message_round_trips_through_a_frame() {
    for m in samples() {
        let mut f = encode_message(&m).unwrap();
        f.extend_from_slice(b"trailing");
        let (back, used) = decode_message(&f).unwrap();
        assert!(same(&m, &back), "{:?} != {:?}", m, back);
        assert_eq!(used, f.len() - 8);
    }
}

#[test]
fn truncated_frames_read_as_closed_connection() {
    for m in samples() {
        let f = encode_message(&m).unwrap();
        for k in 0..f.len() {
            assert_eq!(decode_message(&f[..k]).unwrap_err(), CodecError::ConnectionClosed);
        }
    }
}

#[test]
fn heartbeat_payload_is_compact_json_with_type_first() {
    let m = P2PMessage::Heartbeat { agent_id: ID_A, timestamp: "2024-01-01T00:00:00Z".to_string() };
    let p = encode_payload(&m);
    assert_eq!(
        String::from_utf8(p.clone()).unwrap(),
        "{\"type\":\"Heartbeat\",\"agent_id\":\"936da01f-9abd-4d9d-80c7-02af85c822a8\",\"timestamp\":\"2024-01-01T00:00:00Z\"}"
    );
    let v: serde_json::Value = serde_json::from_slice(&p).unwrap();
    assert_eq!(v["type"], "Heartbeat");
}

#[test]
fn response_payload_layout() {
    let m = P2PMessage::Response { success: true, message: "Heartbeat received".to_string(), data: None };
    assert_eq!(
        String::from_utf8(encode_payload(&m)).unwrap(),
        "{\"type\":\"Response\",\"success\":true,\"message\":\"Heartbeat received\",\"data\":null}"
    );
}

#[test]
fn malformed_payloads_are_protocol_errors() {
    let bad: Vec<&[u8]> = vec![
        b"",
        b"{}",
        b"not json",
        b"{\"type\":\"Heartbeat\",\"agent_id\":\"936DA01F-9ABD-4D9D-80C7-02AF85C822A8\",\"timestamp\":\"2024-01-01T00:00:00Z\"}",
        b"{\"type\":\"Heartbeat\",\"agent_id\":\"936da01f-9abd-4d9d-80c7-02af85c822a8\",\"timestamp\":\"yesterday\"}",
        b"{\"type\":\"Heartbeat\",\"agent_id\":\"936da01f-9abd-4d9d-80c7-02af85c822a8\",\"timestamp\":\"2024-01-01T00:00:00Z\"} ",
        b"{\"type\":\"MetricsShare\",\"agent_id\":\"936da01f-9abd-4d9d-80c7-02af85c822a8\",\"timestamp\":\"2024-01-01T00:00:00Z\",\"metrics\":{]}",
        b"{\"type\":\"Response\",\"success\":maybe,\"message\":\"\",\"data\":null}",
        b"{\"type\":\"Gossip\"}",
    ];
    for b in bad {
        assert_eq!(decode_payload(b).unwrap_err(), CodecError::Protocol, "{:?}", String::from_utf8_lossy(b));
    }
}

#[test]
fn frame_prefix_is_big_endian() {
    assert_eq!(length_prefix(0x0102_0304), vec![1, 2, 3, 4]);
    assert_eq!(declared_length(&[0, 0, 1, 0]), 256);
    let f = encode_frame(b"abc");
    assert_eq!(f, vec![0, 0, 0, 3, b'a', b'b', b'c']);
    assert_eq!(decode_frame(&f).unwrap(), (b"abc".to_vec(), 7));
    assert_eq!(decode_frame(&[0, 0, 0, 4, 1, 2, 3]).unwrap_err(), FrameError::ConnectionClosed);
    assert_eq!(decode_frame(&[0, 0]).unwrap_err(), FrameError::ConnectionClosed);
    assert_eq!(decode_frame(&[0, 0, 0, 0]).unwrap(), (vec![], 4));
}

#[test]
fn string_escapes_follow_json() {
    let mut out = Vec::new();
    escape_into(&mut out, b"a\"b\\c\x08\x0c\n\r\t\x01\x1f\x7f");
    assert_eq!(out, b"a\\\"b\\\\c\\b\\f\\n\\r\\t\\u0001\\u001f\x7f".to_vec());
    out.push(b'"');
    assert_eq!(read_string(&out, 0).unwrap().0, b"a\"b\\c\x08\x0c\n\r\t\x01\x1f\x7f".to_vec());
    assert_eq!(read_string(b"\\u0041\"", 0), None);
    assert_eq!(read_string(b"abc", 0), None);
    assert_eq!(read_string(b"x\"ab\"", 2), Some((b"ab".to_vec(), 5)));
    assert_eq!(read_string(b"x\"ab\"", 1), Some((vec![], 2)));
}

#[test]
fn agent_id_text_form() {
    assert_eq!(agent_id_from_ascii(b"936da01f-9abd-4d9d-80c7-02af85c822a8"), Some(ID_A));
    assert_eq!(agent_id_from_ascii(b"936da01f9abd4d9d80c702af85c822a8"), None);
    assert_eq!(agent_id_from_ascii(b"{936da01f-9abd-4d9d-80c7-02af85c822a8}"), None);
}

fn heartbeat_at(ts: &str) -> Vec<u8> {
    format!("{{\"type\":\"Heartbeat\",\"agent_id\":\"936da01f-9abd-4d9d-80c7-02af85c822a8\",\"timestamp\":\"{}\"}}", ts).into_bytes()
}

fn response_with(data: &str) -> Vec<u8> {
    format!("{{\"type\":\"Response\",\"success\":true,\"message\":\"m\",\"data\":{}}}", data).into_bytes()
}

#[test]
fn timestamps_are_checked_by_chrono() {
    assert!(decode_payload(&heartbeat_at("2024-01-01T00:00:00Z")).is_ok());
    assert!(decode_payload(&heartbeat_at("2024-01-01T00:00:00+02:00")).is_ok());
    assert!(decode_payload(&heartbeat_at("2024-01-01 00:00:00Z")).is_ok());
    assert_eq!(decode_payload(&heartbeat_at("2024-13-01T00:00:00Z")).unwrap_err(), CodecError::Protocol);
    assert_eq!(decode_payload(&heartbeat_at("")).unwrap_err(), CodecError::Protocol);
}

#[test]
fn response_data_is_checked_as_json() {
    match decode_payload(&response_with("[1, {\"a\": null}]")).unwrap() {
        P2PMessage::Response { data: Some(d), .. } => assert_eq!(d, "[1, {\"a\": null}]"),
        other => panic!("{:?}", other),
    }
    assert!(matches!(decode_payload(&response_with("null")).unwrap(), P2PMessage::Response { data: None, .. }));
    assert_eq!(decode_payload(&response_with(" null")).unwrap_err(), CodecError::Protocol);
    assert_eq!(decode_payload(&response_with("{")).unwrap_err(), CodecError::Protocol);
}
