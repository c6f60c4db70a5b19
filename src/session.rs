//! One authenticated session, from the handshake to the end of the stream, as a
//! state machine: the caller performs each action and hands back what happened.
use vstd::prelude::*;
use crate::message::{MessageModel, P2PMessage};

verus! {

/// Which side of the connection this session is.
#[derive(Debug, Clone, Copy, PartialEq, Eq, Structural)]
pub enum Role {
    /// Accepted the connection; sends its handshake first.
    Listener,
    /// Dialed the connection; reads the peer's handshake first.
    Dialer,
}

/// Why a session ended.
#[derive(Debug, Clone, Copy, PartialEq, Eq, Structural)]
pub enum SessionError {
    /// The peer broke the protocol (a first message other than a handshake).
    ProtocolViolation,
    /// The stream closed, or a frame could not be read.
    ConnectionClosed,
}

/// Where a session stands.
#[derive(Debug, Clone)]
pub enum SessionState {
    /// The stream is ready; nothing has been exchanged.
    Start,
    /// Waiting for the peer's handshake.
    AwaitHandshake,
    /// Both handshakes are done; the peer is known.
    Established { peer_id: [u8; 16], peer_name: String },
    /// The session is over.
    Closed,
}

/// What happened on the stream.
#[derive(Debug, Clone)]
pub enum Event {
    /// The TLS handshake completed; `now` is the current time as RFC 3339 text.
    Ready { now: String },
    /// A message was read; `now` is the current time as RFC 3339 text.
    Received { message: P2PMessage, now: String },
    /// The stream ended or a frame could not be read.
    Ended,
}

/// What the caller is to do next.
#[derive(Debug, Clone)]
pub enum Action {
    /// Write this message, then read the next one.
    Send(P2PMessage),
    /// Read the next message.
    Receive,
    /// End the session.
    Close(SessionError),
}

/// The mathematical value of a session state.
pub enum StateModel {
    Start,
    AwaitHandshake,
    Established { peer_id: Seq<u8>, peer_name: Seq<char> },
    Closed,
}

/// The mathematical value of an event.
pub enum EventModel {
    Ready { now: Seq<char> },
    Received { message: MessageModel, now: Seq<char> },
    Ended,
}

/// The mathematical value of an action.
pub enum ActionModel {
    Send(MessageModel),
    Receive,
    Close(SessionError),
}

impl View for SessionState {
    type V = StateModel;

    open spec fn view(&self) -> StateModel {
        match self {
            SessionState::Start => StateModel::Start,
            SessionState::AwaitHandshake => StateModel::AwaitHandshake,
            SessionState::Established { peer_id, peer_name } => StateModel::Established {
                peer_id: peer_id@,
                peer_name: peer_name@,
            },
            SessionState::Closed => StateModel::Closed,
        }
    }
}

impl View for Event {
    type V = EventModel;

    open spec fn view(&self) -> EventModel {
        match self {
            Event::Ready { now } => EventModel::Ready { now: now@ },
            Event::Received { message, now } => EventModel::Received { message: message@, now: now@ },
            Event::Ended => EventModel::Ended,
        }
    }
}

impl View for Action {
    type V = ActionModel;

    open spec fn view(&self) -> ActionModel {
        match self {
            Action::Send(m) => ActionModel::Send(m@),
            Action::Receive => ActionModel::Receive,
            Action::Close(e) => ActionModel::Close(*e),
        }
    }
}

/// The text of the reply to a heartbeat.
pub open spec fn heartbeat_ack_text() -> Seq<char> {
    "Heartbeat received"@
}

/// The text of the reply to a metrics request.
pub open spec fn metrics_reply_text() -> Seq<char> {
    "Metrics data"@
}

/// The data sent in reply to a metrics request while no metrics source is attached.
pub open spec fn metrics_placeholder() -> Seq<char> {
    "{\"status\":\"ok\"}"@
}

/// The handshake that an agent sends.
pub open spec fn handshake_model(id: Seq<u8>, name: Seq<char>, now: Seq<char>) -> MessageModel {
    MessageModel::Handshake { agent_id: id, agent_name: name, timestamp: now }
}

/// What a listener does with a message once the session is established: a
/// heartbeat and a metrics request are answered, anything else is only read.
pub open spec fn listener_reply(m: MessageModel) -> ActionModel {
    match m {
        MessageModel::Heartbeat { .. } => ActionModel::Send(
            MessageModel::Response { success: true, message: heartbeat_ack_text(), data: None },
        ),
        MessageModel::MetricsRequest { .. } => ActionModel::Send(
            MessageModel::Response {
                success: true,
                message: metrics_reply_text(),
                data: Some(metrics_placeholder()),
            },
        ),
        _ => ActionModel::Receive,
    }
}

/// The next state and the action, for a session of `role` whose own identity is
/// `(id, name)`, in state `s`, on event `e`.
pub open spec fn next(role: Role, id: Seq<u8>, name: Seq<char>, s: StateModel, e: EventModel) -> (
    StateModel,
    ActionModel,
) {
    match e {
        EventModel::Ended => (StateModel::Closed, ActionModel::Close(SessionError::ConnectionClosed)),
        EventModel::Ready { now } => match s {
            StateModel::Start => (
                StateModel::AwaitHandshake,
                match role {
                    Role::Listener => ActionModel::Send(handshake_model(id, name, now)),
                    Role::Dialer => ActionModel::Receive,
                },
            ),
            _ => (StateModel::Closed, ActionModel::Close(SessionError::ProtocolViolation)),
        },
        EventModel::Received { message, now } => match s {
            StateModel::AwaitHandshake => match message {
                MessageModel::Handshake { agent_id, agent_name, .. } => (
                    StateModel::Established { peer_id: agent_id, peer_name: agent_name },
                    match role {
                        Role::Listener => ActionModel::Receive,
                        Role::Dialer => ActionModel::Send(handshake_model(id, name, now)),
                    },
                ),
                _ => (StateModel::Closed, ActionModel::Close(SessionError::ProtocolViolation)),
            },
            StateModel::Established { .. } => (
                s,
                match role {
                    Role::Listener => listener_reply(message),
                    Role::Dialer => ActionModel::Receive,
                },
            ),
            _ => (StateModel::Closed, ActionModel::Close(SessionError::ProtocolViolation)),
        },
    }
}

/// A session over one stream, with the identity this agent presents.
pub struct Session {
    pub role: Role,
    pub agent_id: [u8; 16],
    pub agent_name: String,
    pub state: SessionState,
}

impl Session {
    /// A session that has exchanged nothing yet.
    pub fn new(role: Role, agent_id: [u8; 16], agent_name: String) -> (r: Session)
        ensures
            r.role == role,
            r.agent_id == agent_id,
            r.agent_name@ == agent_name@,
            r.state@ == StateModel::Start,
    {
        Session { role, agent_id, agent_name, state: SessionState::Start }
    }

    /// Whether both handshakes are done.
    pub fn is_established(&self) -> (r: bool)
        ensures
            r == (self.state@ is Established),
    {
        match self.state {
            SessionState::Established { .. } => true,
            _ => false,
        }
    }

    fn own_handshake(&self, now: String) -> (r: P2PMessage)
        ensures
            r@ == handshake_model(self.agent_id@, self.agent_name@, now@),
    {
        P2PMessage::Handshake { agent_id: self.agent_id, agent_name: self.agent_name.clone(), timestamp: now }
    }

    /// Moves the session on by one event and says what to do next.
    pub fn step(&mut self, event: Event) -> (r: Action)
        ensures
            final(self).role == old(self).role,
            final(self).agent_id == old(self).agent_id,
            final(self).agent_name == old(self).agent_name,
            (final(self).state@, r@) == next(
                old(self).role,
                old(self).agent_id@,
                old(self).agent_name@,
                old(self).state@,
                event@,
            ),
    {
        match event {
            Event::Ended => {
                self.state = SessionState::Closed;
                Action::Close(SessionError::ConnectionClosed)
            },
            Event::Ready { now } => match self.state {
                SessionState::Start => {
                    self.state = SessionState::AwaitHandshake;
                    match self.role {
                        Role::Listener => Action::Send(self.own_handshake(now)),
                        Role::Dialer => Action::Receive,
                    }
                },
                _ => {
                    self.state = SessionState::Closed;
                    Action::Close(SessionError::ProtocolViolation)
                },
            },
            Event::Received { message, now } => match self.state {
                SessionState::AwaitHandshake => match message {
                    P2PMessage::Handshake { agent_id, agent_name, .. } => {
                        let action = match self.role {
                            Role::Listener => Action::Receive,
                            Role::Dialer => Action::Send(self.own_handshake(now)),
                        };
                        self.state = SessionState::Established { peer_id: agent_id, peer_name: agent_name };
                        action
                    },
                    _ => {
                        self.state = SessionState::Closed;
                        Action::Close(SessionError::ProtocolViolation)
                    },
                },
                SessionState::Established { .. } => match self.role {
                    Role::Listener => listener_action(&message),
                    Role::Dialer => Action::Receive,
                },
                _ => {
                    self.state = SessionState::Closed;
                    Action::Close(SessionError::ProtocolViolation)
                },
            },
        }
    }
}

/// What a listener does with a message once the session is established.
pub fn listener_action(m: &P2PMessage) -> (r: Action)
    ensures
        r@ == listener_reply(m@),
{
    match m {
        P2PMessage::Heartbeat { .. } => Action::Send(
            P2PMessage::Response { success: true, message: "Heartbeat received".to_owned(), data: None },
        ),
        P2PMessage::MetricsRequest { .. } => Action::Send(
            P2PMessage::Response {
                success: true,
                message: "Metrics data".to_owned(),
                data: Some("{\"status\":\"ok\"}".to_owned()),
            },
        ),
        _ => Action::Receive,
    }
}


/// A listener's first move: on the stream becoming ready it sends its own
/// handshake and then waits; it reads nothing before that.
pub proof fn lemma_listener_sends_first(id: Seq<u8>, name: Seq<char>, e: EventModel)
    ensures
        match e {
            EventModel::Ready { now } => next(Role::Listener, id, name, StateModel::Start, e) == (
                StateModel::AwaitHandshake,
                ActionModel::Send(handshake_model(id, name, now)),
            ),
            _ => next(Role::Listener, id, name, StateModel::Start, e).0 is Closed,
        },
{
}

/// A dialer sends nothing before it has read the peer's handshake: until then
/// its only move other than closing is to read.
pub proof fn lemma_dialer_reads_first(id: Seq<u8>, name: Seq<char>, s: StateModel, e: EventModel)
    requires
        s is Start || s is AwaitHandshake,
    ensures
        next(Role::Dialer, id, name, s, e).1 is Send ==> (s is AwaitHandshake && e is Received
            && e->Received_message is Handshake),
{
}

/// A listener and a dialer that follow their sessions complete the handshake in
/// this order: the listener sends, the dialer reads, the dialer sends, the
/// listener reads; and each then knows the other's declared identity.
pub proof fn lemma_handshake_interleave(
    listener_id: Seq<u8>,
    listener_name: Seq<char>,
    dialer_id: Seq<u8>,
    dialer_name: Seq<char>,
    t1: Seq<char>,
    t2: Seq<char>,
    t3: Seq<char>,
    t4: Seq<char>,
)
    ensures
        ({
            let (l1, la1) = next(
                Role::Listener,
                listener_id,
                listener_name,
                StateModel::Start,
                EventModel::Ready { now: t1 },
            );
            let (d1, da1) = next(
                Role::Dialer,
                dialer_id,
                dialer_name,
                StateModel::Start,
                EventModel::Ready { now: t2 },
            );
            let sent_by_listener = handshake_model(listener_id, listener_name, t1);
            let (d2, da2) = next(
                Role::Dialer,
                dialer_id,
                dialer_name,
                d1,
                EventModel::Received { message: sent_by_listener, now: t3 },
            );
            let sent_by_dialer = handshake_model(dialer_id, dialer_name, t3);
            let (l2, la2) = next(
                Role::Listener,
                listener_id,
                listener_name,
                l1,
                EventModel::Received { message: sent_by_dialer, now: t4 },
            );
            &&& la1 == ActionModel::Send(sent_by_listener)
            &&& da1 == ActionModel::Receive
            &&& da2 == ActionModel::Send(sent_by_dialer)
            &&& la2 == ActionModel::Receive
            &&& d2 == StateModel::Established { peer_id: listener_id, peer_name: listener_name }
            &&& l2 == StateModel::Established { peer_id: dialer_id, peer_name: dialer_name }
        }),
{
}

/// Why a heartbeat or a metrics request failed.
#[derive(Debug, Clone)]
pub enum RequestError {
    /// The peer answered with a failed response carrying this text.
    Rejected(String),
    /// The peer answered with something other than a response.
    UnexpectedReply,
}

/// The heartbeat that an agent sends.
pub fn heartbeat(agent_id: [u8; 16], now: String) -> (r: P2PMessage)
    ensures
        r@ == (MessageModel::Heartbeat { agent_id: agent_id@, timestamp: now@ }),
{
    P2PMessage::Heartbeat { agent_id, timestamp: now }
}

/// The metrics request that an agent sends.
pub fn metrics_request(agent_id: [u8; 16], now: String) -> (r: P2PMessage)
    ensures
        r@ == (MessageModel::MetricsRequest { agent_id: agent_id@, timestamp: now@ }),
{
    P2PMessage::MetricsRequest { agent_id, timestamp: now }
}

/// What the reply to a heartbeat means: success only for a successful response;
/// a failed response is rejected with its text; anything else is unexpected.
pub fn heartbeat_outcome(reply: &P2PMessage) -> (r: Result<(), RequestError>)
    ensures
        match reply@ {
            MessageModel::Response { success, message, .. } => if success {
                r is Ok
            } else {
                r matches Err(RequestError::Rejected(t)) && t@ == message
            },
            _ => r matches Err(RequestError::UnexpectedReply),
        },
{
    match reply {
        P2PMessage::Response { success, message, .. } => {
            if *success {
                Ok(())
            } else {
                Err(RequestError::Rejected(message.clone()))
            }
        },
        _ => Err(RequestError::UnexpectedReply),
    }
}

/// What the reply to a metrics request means: a successful response gives its
/// data, or `{}` when it has none; a failed response is rejected with its text;
/// anything else is unexpected.
pub fn metrics_outcome(reply: &P2PMessage) -> (r: Result<String, RequestError>)
    ensures
        match reply@ {
            MessageModel::Response { success, message, data } => if success {
                r matches Ok(d) && d@ == match data {
                    Some(x) => x,
                    None => "{}"@,
                }
            } else {
                r matches Err(RequestError::Rejected(t)) && t@ == message
            },
            _ => r matches Err(RequestError::UnexpectedReply),
        },
{
    match reply {
        P2PMessage::Response { success, message, data } => {
            if *success {
                match data {
                    Some(d) => Ok(d.clone()),
                    None => Ok("{}".to_owned()),
                }
            } else {
                Err(RequestError::Rejected(message.clone()))
            }
        },
        _ => Err(RequestError::UnexpectedReply),
    }
}

} // verus!
