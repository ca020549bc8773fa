//! The decisions of a channel that exchanges messages through a polling
//! relay server: each client publishes its current payload under its own
//! name, and reads its peer's payload until it changes.
//!
//! Polling is unbounded: a caller keeps polling while `on_poll` answers
//! `Wait`, and the relay gives no retry budget of its own.
use vstd::prelude::*;
use crate::protocol::{format_spec, Message, MessageView};

verus! {

#[verifier::external_type_specification]
#[verifier::external_body]
pub struct ExJsonError(serde_json::Error);

/// The JSON string literal that serde_json writes for a text.
pub uninterp spec fn json_string_literal(s: Seq<char>) -> Seq<char>;

/// The text of the JSON string found in the document `body` at the member
/// `inner` of its member `outer`; `None` when `body` is not JSON or holds no
/// string there.
pub uninterp spec fn json_string_member(body: Seq<char>, outer: Seq<char>, inner: Seq<char>) -> Option<Seq<char>>;

/// Whether JSON writes `s` between two quotes unchanged: it holds no quote,
/// no backslash and no control character.
pub open spec fn needs_no_escape(s: Seq<char>) -> bool {
    forall|i: int| 0 <= i < s.len() ==> s[i] != '"' && s[i] != '\\' && s[i] as u32 >= 0x20
}

/// Relies on serde_json::to_string: a `str` serialises to a JSON string
/// literal that depends on its characters alone, escaping only quotes,
/// backslashes and control characters; and since it is written into a
/// `Vec`, whose writes never fail, serialising it always succeeds.
#[verifier::external_body]
fn json_quote(s: &str) -> (r: Result<String, serde_json::Error>)
    ensures
        r is Ok,
        r->Ok_0@ == json_string_literal(s@),
        needs_no_escape(s@) ==> r->Ok_0@ == seq!['"'] + s@ + seq!['"'],
{
    serde_json::to_string(s)
}

/// `s` as a JSON string literal.
fn quoted(s: &str) -> (r: String)
    ensures
        r@ == json_string_literal(s@),
{
    match json_quote(s) {
        Ok(q) => q,
        Err(_) => {
            proof {
                assert(false);
            }
            String::new()
        },
    }
}

/// Relies on serde_json::from_str, Value::get and Value::as_str: parses
/// `body` as a JSON document and looks up the string at `outer`.`inner`.
#[verifier::external_body]
fn json_string_at(body: &str, outer: &str, inner: &str) -> (r: Option<String>)
    ensures
        match r {
            Some(t) => json_string_member(body@, outer@, inner@) == Some(t@),
            None => json_string_member(body@, outer@, inner@) is None,
        },
{
    let doc: serde_json::Value = serde_json::from_str(body).ok()?;
    doc.get(outer)?.get(inner)?.as_str().map(String::from)
}

/// The peer's payload that a poll's body holds: the string at
/// `nextMessage.message`.
pub open spec fn relay_payload(body: Seq<char>) -> Option<Seq<char>> {
    json_string_member(body, "nextMessage"@, "message"@)
}

/// Why a relay operation could not go on.
#[derive(Debug, PartialEq, Eq)]
pub enum RelayFault {
    /// The server answered a poll with a client error status.
    Rejected(u16),
    /// The server's answer does not hold the peer's payload.
    BadResponse,
}

/// How an HTTP status code is treated.
#[derive(Debug, Clone, Copy, PartialEq, Eq, Structural)]
pub enum StatusClass {
    /// 400 to 499: the request itself is at fault; not worth retrying.
    ClientError,
    /// 500 to 599: a transient fault of the server; retried.
    ServerError,
    /// Any other status: the answer is read.
    Usable,
}

pub open spec fn status_class_spec(code: u16) -> StatusClass {
    if 400 <= code < 500 {
        StatusClass::ClientError
    } else if 500 <= code < 600 {
        StatusClass::ServerError
    } else {
        StatusClass::Usable
    }
}

/// The class of an HTTP status code.
pub fn classify_status(code: u16) -> (r: StatusClass)
    ensures
        r == status_class_spec(code),
{
    if 400 <= code && code < 500 {
        StatusClass::ClientError
    } else if 500 <= code && code < 600 {
        StatusClass::ServerError
    } else {
        StatusClass::Usable
    }
}

/// What the owner of a session does after a poll.
#[derive(Debug, PartialEq, Eq)]
pub enum PollStep {
    /// Hand this new payload of the peer to the caller.
    Deliver(String),
    /// Nothing new: sleep for the poll interval, then poll again.
    Wait,
    /// Give up on this channel.
    Fault(RelayFault),
}

/// The mathematical model of a relay session.
pub struct RelayView {
    pub endpoint: Seq<char>,
    pub name: Seq<char>,
    pub peer: Seq<char>,
    pub last_seen: Seq<char>,
}

/// The state of one client's session with a relay server.
pub struct RelaySession {
    endpoint: String,
    name: String,
    peer: String,
    last_seen: String,
}

impl View for RelaySession {
    type V = RelayView;

    closed spec fn view(&self) -> RelayView {
        RelayView {
            endpoint: self.endpoint@,
            name: self.name@,
            peer: self.peer@,
            last_seen: self.last_seen@,
        }
    }
}

/// After a poll that read `payload`, with `last` the payload delivered last:
/// what is remembered, and what is delivered.
pub open spec fn observe_spec(last: Seq<char>, payload: Seq<char>) -> (Seq<char>, Option<Seq<char>>) {
    if payload == last {
        (last, None)
    } else {
        (payload, Some(payload))
    }
}

/// A payload read by two consecutive polls is delivered at most once, and a
/// payload that differs from the last one delivered is delivered at once and
/// remembered.
pub proof fn lemma_no_duplicate_delivery(last: Seq<char>, payload: Seq<char>)
    ensures
        observe_spec(observe_spec(last, payload).0, payload).1 is None,
        observe_spec(observe_spec(last, payload).0, payload).0 == observe_spec(last, payload).0,
        payload != last ==> observe_spec(last, payload) == (payload, Some(payload)),
{
}

/// The body that publishes `message` as a client's current payload:
/// `{"message":<message>}`.
pub fn message_body(message: &str) -> (r: String)
    ensures
        r@ == "{\"message\":"@ + json_string_literal(message@) + "}"@,
{
    String::from_str("{\"message\":").concat(quoted(message).as_str()).concat("}")
}

impl RelaySession {
    /// A session of the client `name` with the peer `peer`, against the
    /// server at `endpoint`; nothing has been delivered yet.
    pub fn new(endpoint: &str, name: &str, peer: &str) -> (r: RelaySession)
        ensures
            r@ == (RelayView {
                endpoint: endpoint@,
                name: name@,
                peer: peer@,
                last_seen: Seq::<char>::empty(),
            }),
    {
        RelaySession {
            endpoint: String::from_str(endpoint),
            name: String::from_str(name),
            peer: String::from_str(peer),
            last_seen: String::new(),
        }
    }

    /// Where a client joins: `<endpoint>/clients`.
    pub fn join_url(&self) -> (r: String)
        ensures
            r@ == self@.endpoint + "/clients"@,
    {
        self.endpoint.clone().concat("/clients")
    }

    /// Where this client publishes: `<endpoint>/clients/<name>/message`.
    pub fn message_url(&self) -> (r: String)
        ensures
            r@ == self@.endpoint + "/clients/"@ + self@.name + "/message"@,
    {
        self.endpoint.clone().concat("/clients/").concat(self.name.as_str()).concat("/message")
    }

    /// Where the peer's payload is read: `<endpoint>/clients/<peer>`.
    pub fn peer_url(&self) -> (r: String)
        ensures
            r@ == self@.endpoint + "/clients/"@ + self@.peer,
    {
        self.endpoint.clone().concat("/clients/").concat(self.peer.as_str())
    }

    /// The body that joins the relay: the client's name, and as its first
    /// payload the greeting that carries that name,
    /// `{"name":<name>,"nextMessage":{"message":<greeting>}}`.
    pub fn join_body(&self) -> (r: String)
        ensures
            r@ == "{\"name\":"@ + json_string_literal(self@.name)
                + ",\"nextMessage\":{\"message\":"@ + json_string_literal(
                format_spec(MessageView::Hello(self@.name)),
            ) + "}}"@,
    {
        let greeting = Message::Hello(self.name.clone()).format();
        String::from_str("{\"name\":").concat(quoted(self.name.as_str()).as_str()).concat(
            ",\"nextMessage\":{\"message\":",
        ).concat(quoted(greeting.as_str()).as_str()).concat("}}")
    }

    /// Takes the peer's payload as read by a poll: delivers it when it
    /// differs from the payload delivered last, and then remembers it.
    pub fn observe(&mut self, payload: String) -> (r: Option<String>)
        ensures
            final(self)@.endpoint == old(self)@.endpoint,
            final(self)@.name == old(self)@.name,
            final(self)@.peer == old(self)@.peer,
            final(self)@.last_seen == observe_spec(old(self)@.last_seen, payload@).0,
            r matches Some(t) ==> observe_spec(old(self)@.last_seen, payload@).1 == Some(t@),
            r is None ==> observe_spec(old(self)@.last_seen, payload@).1 is None,
    {
        if payload == self.last_seen {
            None
        } else {
            self.last_seen = payload.clone();
            Some(payload)
        }
    }

    /// The last payload delivered, empty before the first.
    pub fn last_seen(&self) -> (r: String)
        ensures
            r@ == self@.last_seen,
    {
        self.last_seen.clone()
    }

    /// Takes the answer to one poll of the peer's payload: its status code
    /// and its body, a JSON object whose `nextMessage.message` is the payload.
    /// A server error is waited out; a client error, or a body without the
    /// payload, ends the channel; a payload is handed to `observe`.
    pub fn on_poll(&mut self, status: u16, body: &str) -> (r: PollStep)
        ensures
            final(self)@.endpoint == old(self)@.endpoint,
            final(self)@.name == old(self)@.name,
            final(self)@.peer == old(self)@.peer,
            status_class_spec(status) is ServerError ==> r is Wait && final(self)@ == old(self)@,
            status_class_spec(status) is ClientError ==> r == PollStep::Fault(
                RelayFault::Rejected(status),
            ) && final(self)@ == old(self)@,
            status_class_spec(status) is Usable ==> match relay_payload(body@) {
                None => r == PollStep::Fault(RelayFault::BadResponse) && final(self)@ == old(self)@,
                Some(p) => if p == old(self)@.last_seen {
                    r is Wait && final(self)@ == old(self)@
                } else {
                    r matches PollStep::Deliver(t) && t@ == p && final(self)@.last_seen == p
                },
            },
            r matches PollStep::Deliver(t) ==> t@ != old(self)@.last_seen && final(self)@.last_seen
                == t@,
            r is Wait ==> final(self)@ == old(self)@,
            r matches PollStep::Fault(f) ==> final(self)@ == old(self)@ && (f
                == RelayFault::Rejected(status) || f == RelayFault::BadResponse),
    {
        match classify_status(status) {
            StatusClass::ServerError => PollStep::Wait,
            StatusClass::ClientError => PollStep::Fault(RelayFault::Rejected(status)),
            StatusClass::Usable => match payload_of(body) {
                None => PollStep::Fault(RelayFault::BadResponse),
                Some(p) => match self.observe(p) {
                    Some(t) => PollStep::Deliver(t),
                    None => PollStep::Wait,
                },
            },
        }
    }
}

/// The peer's payload in a poll's body: the text at `nextMessage.message`.
pub fn payload_of(body: &str) -> (r: Option<String>)
    ensures
        match r {
            Some(t) => relay_payload(body@) == Some(t@),
            None => relay_payload(body@) is None,
        },
{
    json_string_at(body, "nextMessage", "message")
}

} // verus!
