//! The channel interface that every transport offers, and the two channels
//! that need no peer: the null channel and the local stand-in.
use vstd::prelude::*;
use crate::protocol::{format_spec, is_token, lemma_parse_format, parse_spec, Message, MessageView};

verus! {

/// A two-party message channel.
pub trait Connection {
    /// Sends `message` to the peer; `false` when it could not be written.
    fn send_message(&mut self, message: &str) -> bool;

    /// Blocks until the peer's next message arrives.
    fn wait_for_message(&mut self) -> Result<String, String>;

    /// The most recently observed message, without blocking.
    fn get_message(&self) -> Result<String, String>;
}

/// The move that the null channel always answers with.
pub open spec fn canned_move() -> Seq<char> {
    seq!['m', 'a', 'k', 'e', '_', 'm', 'o', 'v', 'e', ' ', 'e', '7', 'e', '5']
}

/// The placeholder returned by channels that keep no message.
pub open spec fn placeholder() -> Seq<char> {
    seq!['N', 'o', 't', 'h', 'i', 'n', 'g']
}

/// A channel with no peer and no state: sending always succeeds, and the
/// peer always answers with the same move.
pub struct EchoConnection {}

impl EchoConnection {
    pub fn new() -> (r: EchoConnection) {
        EchoConnection {}
    }
}

impl Connection for EchoConnection {
    fn send_message(&mut self, _message: &str) -> (r: bool)
        ensures
            r,
    {
        true
    }

    fn wait_for_message(&mut self) -> (r: Result<String, String>)
        ensures
            r matches Ok(t) && t@ == canned_move(),
    {
        proof {
            reveal_strlit("make_move e7e5");
        }
        let t = String::from_str("make_move e7e5");
        assert(t@ =~= canned_move());
        Ok(t)
    }

    fn get_message(&self) -> (r: Result<String, String>)
        ensures
            r matches Ok(t) && t@ == placeholder(),
    {
        proof {
            reveal_strlit("Nothing");
        }
        let t = String::from_str("Nothing");
        assert(t@ =~= placeholder());
        Ok(t)
    }
}

/// The word that a local operator types to end the session.
pub open spec fn exit_word() -> Seq<char> {
    seq!['e', 'x', 'i', 't']
}

/// The message line that the local stand-in makes of a typed `input`.
pub open spec fn local_answer(input: Seq<char>) -> Seq<char> {
    if input == exit_word() {
        format_spec(MessageView::Bye)
    } else if input.len() != 4 {
        format_spec(MessageView::BadMessage)
    } else {
        format_spec(MessageView::MakeMove(input))
    }
}

/// What the local stand-in answers parses back: `exit` to `Bye`, input of
/// any length but four characters to `BadMessage`, and a four-character
/// token to that move.
pub proof fn lemma_local_answer_parses(input: Seq<char>)
    ensures
        input == exit_word() ==> parse_spec(local_answer(input)) == MessageView::Bye,
        input != exit_word() && input.len() != 4 ==> parse_spec(local_answer(input))
            == MessageView::BadMessage,
        input != exit_word() && input.len() == 4 && is_token(input) ==> parse_spec(
            local_answer(input),
        ) == MessageView::MakeMove(input),
{
    lemma_parse_format(MessageView::Bye);
    lemma_parse_format(MessageView::BadMessage);
    if is_token(input) {
        lemma_parse_format(MessageView::MakeMove(input));
    }
}

/// A stand-in for a second player at the same terminal: nothing is sent to
/// a peer, and what the operator types is read as the peer's message.
pub struct SelfConnection {}

impl SelfConnection {
    pub fn new() -> (r: SelfConnection) {
        SelfConnection {}
    }

    /// Nothing is sent: there is no peer.
    pub fn send_message(&mut self, _message: &str) -> (r: bool)
        ensures
            r,
    {
        true
    }

    /// The message line for the operator's typed `input`: `exit` ends the
    /// session, input of any length but four characters is a bad message,
    /// and four characters are a move.
    pub fn answer(&self, input: &str) -> (r: String)
        ensures
            r@ == local_answer(input@),
    {
        proof {
            reveal_strlit("exit");
            assert("exit"@ =~= exit_word());
        }
        let value = String::from_str(input);
        if value == String::from_str("exit") {
            Message::Bye.format()
        } else if input.unicode_len() != 4 {
            Message::BadMessage.format()
        } else {
            Message::MakeMove(value).format()
        }
    }

    pub fn get_message(&self) -> (r: Result<String, String>)
        ensures
            r matches Ok(t) && t@ == placeholder(),
    {
        proof {
            reveal_strlit("Nothing");
        }
        let t = String::from_str("Nothing");
        assert(t@ =~= placeholder());
        Ok(t)
    }
}

} // verus!
