use agent_transport::codec::{decode_message, encode_message};
use agent_transport::message::{CodecError, P2PMessage};
use agent_transport::session::{
    heartbeat, heartbeat_outcome, listener_action, metrics_outcome, metrics_request, Action, Event, RequestError, Role,
    Session, SessionError, SessionState,
};

const LISTENER: [u8; 16] = [1; 16];
const DIALER: [u8; 16] = [2; 16];
const NOW: &str = "2024-01-01T00:00:00Z";

fn ready() -> Event {
    Event::Ready { now: NOW.to_string() }
}

fn received(m: P2PMessage) -> Event {
    Event::Received { message: m, now: NOW.to_string() }
}

fn sent(a: Action) -> P2PMessage {
    match a {
        Action::Send(m) => m,
        other => panic!("expected a message to send, got {:?}", other),
    }
}

fn peer_of(s: &Session) -> ([u8; 16], String) {
    match &s.state {
        SessionState::Established { peer_id, peer_name } => (*peer_id, peer_name.clone()),
        other => panic!("not established: {:?}", other),
    }
}

fn established_pair() -> (Session, Session) {
    let mut l = Session::new(Role::Listener, LISTENER, "lis".to_string());
    let mut d = Session::new(Role::Dialer, DIALER, "dia".to_string());
    let hello = sent(l.step(ready()));
    assert!(matches!(d.step(ready()), Action::Receive));
    let reply = sent(d.step(received(hello)));
    assert!(matches!(l.step(received(reply)), Action::Receive));
    (l, d)
}

#[test]
fn handshake_interleaves_and_identities_meet() {
    let mut l = Session::new(Role::Listener, LISTENER, "lis".to_string());
    let mut d = Session::new(Role::Dialer, DIALER, "dia".to_string());
    let first = l.step(ready());
    let hello = sent(first);
    assert!(matches!(&hello, P2PMessage::Handshake { agent_id, agent_name, .. } if *agent_id == LISTENER && agent_name == "lis"));
    assert!(matches!(d.step(ready()), Action::Receive));
    // the handshake crosses a real frame
    let (hello, _) = decode_message(&encode_message(&hello).unwrap()).unwrap();
    let reply = sent(d.step(received(hello)));
    assert!(matches!(&reply, P2PMessage::Handshake { agent_id, agent_name, .. } if *agent_id == DIALER && agent_name == "dia"));
    let (reply, _) = decode_message(&encode_message(&reply).unwrap()).unwrap();
    assert!(matches!(l.step(received(reply)), Action::Receive));
    assert_eq!(peer_of(&l), (DIALER, "dia".to_string()));
    assert_eq!(peer_of(&d), (LISTENER, "lis".to_string()));
    assert!(l.is_established() && d.is_established());
}

#[test]
fn a_first_message_other_than_handshake_ends_the_session() {
    let mut l = Session::new(Role::Listener, LISTENER, "lis".to_string());
    let _ = l.step(ready());
    let a = l.step(received(heartbeat(DIALER, NOW.to_string())));
    assert!(matches!(a, Action::Close(SessionError::ProtocolViolation)));
    assert!(matches!(l.state, SessionState::Closed));
    let mut d = Session::new(Role::Dialer, DIALER, "dia".to_string());
    let _ = d.step(ready());
    let a = d.step(received(P2PMessage::Response { success: true, message: String::new(), data: None }));
    assert!(matches!(a, Action::Close(SessionError::ProtocolViolation)));
}

#[test]
fn listener_answers_heartbeats_and_metrics_requests() {
    let (mut l, _) = established_pair();
    let r = sent(l.step(received(heartbeat(DIALER, NOW.to_string()))));
    assert!(matches!(&r, P2PMessage::Response { success: true, message, data: None } if message == "Heartbeat received"));
    let r = sent(l.step(received(metrics_request(DIALER, NOW.to_string()))));
    assert!(matches!(&r, P2PMessage::Response { success: true, message, data: Some(d) } if message == "Metrics data" && d == "{\"status\":\"ok\"}"));
    let share = P2PMessage::MetricsShare { agent_id: DIALER, timestamp: NOW.to_string(), metrics: "{}".to_string() };
    assert!(matches!(l.step(received(share)), Action::Receive));
    assert!(matches!(listener_action(&P2PMessage::Handshake { agent_id: DIALER, agent_name: "x".to_string(), timestamp: NOW.to_string() }), Action::Receive));
    assert!(matches!(l.step(Event::Ended), Action::Close(SessionError::ConnectionClosed)));
}

#[test]
fn a_malformed_session_does_not_disturb_another() {
    let (mut good, _) = established_pair();
    let (mut bad, _) = established_pair();
    let mut garbage = vec![0, 0, 0, 5];
    garbage.extend_from_slice(b"{oops");
    assert_eq!(decode_message(&garbage).unwrap_err(), CodecError::Protocol);
    assert!(matches!(bad.step(Event::Ended), Action::Close(SessionError::ConnectionClosed)));
    let frame = encode_message(&heartbeat(DIALER, NOW.to_string())).unwrap();
    let (m, _) = decode_message(&frame).unwrap();
    let reply = sent(good.step(received(m)));
    assert!(heartbeat_outcome(&reply).is_ok());
    assert!(good.is_established());
    assert!(matches!(bad.state, SessionState::Closed));
}

#[test]
fn failed_heartbeat_reply_is_an_error() {
    let reply = P2PMessage::Response { success: false, message: "reason".to_string(), data: None };
    assert!(matches!(heartbeat_outcome(&reply), Err(RequestError::Rejected(t)) if t == "reason"));
    assert!(matches!(heartbeat_outcome(&heartbeat(LISTENER, NOW.to_string())), Err(RequestError::UnexpectedReply)));
    let ok = P2PMessage::Response { success: true, message: "fine".to_string(), data: None };
    assert!(heartbeat_outcome(&ok).is_ok());
}

#[test]
fn metrics_reply_gives_data_or_empty_object() {
    let with = P2PMessage::Response { success: true, message: String::new(), data: Some("[1]".to_string()) };
    assert_eq!(metrics_outcome(&with).unwrap(), "[1]");
    let without = P2PMessage::Response { success: true, message: String::new(), data: None };
    assert_eq!(metrics_outcome(&without).unwrap(), "{}");
    let failed = P2PMessage::Response { success: false, message: "busy".to_string(), data: None };
    assert!(matches!(metrics_outcome(&failed), Err(RequestError::Rejected(t)) if t == "busy"));
}
