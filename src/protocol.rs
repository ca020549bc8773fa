//! Protocol messages and their one-line text form: a verb, optionally
//! followed by a single space and one argument token.
use vstd::prelude::*;

verus! {

/// The mathematical model of a protocol message.
pub enum MessageView {
    MakeMove(Seq<char>),
    Hello(Seq<char>),
    Bye,
    BadMessage,
}

/// A protocol message exchanged between two clients.
#[derive(Debug, PartialEq, Eq)]
pub enum Message {
    /// A move, written as a single token such as `e2e4`.
    MakeMove(String),
    /// The greeting posted when joining a relay, carrying the client's name.
    Hello(String),
    /// The end of the session.
    Bye,
    /// The sentinel for any line that is not a recognised message.
    BadMessage,
}

impl View for Message {
    type V = MessageView;

    open spec fn view(&self) -> MessageView {
        match self {
            Message::MakeMove(a) => MessageView::MakeMove(a@),
            Message::Hello(a) => MessageView::Hello(a@),
            Message::Bye => MessageView::Bye,
            Message::BadMessage => MessageView::BadMessage,
        }
    }
}

pub open spec fn verb_make_move() -> Seq<char> {
    seq!['m', 'a', 'k', 'e', '_', 'm', 'o', 'v', 'e']
}

pub open spec fn verb_hello() -> Seq<char> {
    seq!['h', 'e', 'l', 'l', 'o']
}

pub open spec fn verb_bye() -> Seq<char> {
    seq!['b', 'y', 'e']
}

pub open spec fn verb_bad_message() -> Seq<char> {
    seq!['b', 'a', 'd', '_', 'm', 'e', 's', 's', 'a', 'g', 'e']
}

/// An argument token: at least one character, and no space.
pub open spec fn is_token(s: Seq<char>) -> bool {
    s.len() > 0 && forall|i: int| 0 <= i < s.len() ==> s[i] != ' '
}

impl MessageView {
    /// A message that has a canonical text form which parses back to it.
    pub open spec fn wf(self) -> bool {
        match self {
            MessageView::MakeMove(a) => is_token(a),
            MessageView::Hello(a) => is_token(a),
            _ => true,
        }
    }
}

/// `verb`, one space, then `arg`.
pub open spec fn with_argument(verb: Seq<char>, arg: Seq<char>) -> Seq<char> {
    verb.push(' ') + arg
}

/// The canonical text form of a message.
pub open spec fn format_spec(m: MessageView) -> Seq<char> {
    match m {
        MessageView::MakeMove(a) => with_argument(verb_make_move(), a),
        MessageView::Hello(a) => with_argument(verb_hello(), a),
        MessageView::Bye => verb_bye(),
        MessageView::BadMessage => verb_bad_message(),
    }
}

/// Whether `line` is `verb`, one space, and an argument token.
pub open spec fn has_argument(line: Seq<char>, verb: Seq<char>) -> bool {
    &&& line.len() > verb.len() + 1
    &&& line.take(verb.len() as int) == verb
    &&& line[verb.len() as int] == ' '
    &&& is_token(line.skip(verb.len() + 1 as int))
}

/// The message that a line of text denotes; anything unrecognised is `BadMessage`.
pub open spec fn parse_spec(line: Seq<char>) -> MessageView {
    if line == verb_bye() {
        MessageView::Bye
    } else if line == verb_bad_message() {
        MessageView::BadMessage
    } else if has_argument(line, verb_make_move()) {
        MessageView::MakeMove(line.skip(verb_make_move().len() + 1 as int))
    } else if has_argument(line, verb_hello()) {
        MessageView::Hello(line.skip(verb_hello().len() + 1 as int))
    } else {
        MessageView::BadMessage
    }
}

proof fn lemma_with_argument_parts(verb: Seq<char>, arg: Seq<char>)
    ensures
        with_argument(verb, arg).len() == verb.len() + 1 + arg.len(),
        with_argument(verb, arg).take(verb.len() as int) == verb,
        with_argument(verb, arg)[verb.len() as int] == ' ',
        with_argument(verb, arg).skip(verb.len() + 1 as int) == arg,
{
    let s = with_argument(verb, arg);
    assert(s.take(verb.len() as int) =~= verb);
    assert(s.skip(verb.len() + 1 as int) =~= arg);
}

/// Formatting then parsing gives back every well-formed message.
pub proof fn lemma_parse_format(m: MessageView)
    requires
        m.wf(),
    ensures
        parse_spec(format_spec(m)) == m,
{
    match m {
        MessageView::MakeMove(a) => {
            let s = format_spec(m);
            lemma_with_argument_parts(verb_make_move(), a);
            assert(s != verb_bye());
            assert(s != verb_bad_message());
        },
        MessageView::Hello(a) => {
            let s = format_spec(m);
            lemma_with_argument_parts(verb_hello(), a);
            assert(s != verb_bye());
            assert(s != verb_bad_message());
            assert(s[0] == 'h');
            assert(!has_argument(s, verb_make_move())) by {
                if has_argument(s, verb_make_move()) {
                    assert(s.take(9)[0] == 'm');
                }
            }
        },
        MessageView::Bye => {
            assert(verb_bye() != verb_bad_message()) by {
                assert(verb_bye().len() != verb_bad_message().len());
            }
        },
        MessageView::BadMessage => {},
    }
}

/// Every line parses to a well-formed message, and a line that parses to
/// anything but `BadMessage` is exactly that message's canonical form.
pub proof fn lemma_parse_canonical(line: Seq<char>)
    ensures
        parse_spec(line).wf(),
        parse_spec(line) != MessageView::BadMessage ==> format_spec(parse_spec(line)) == line,
{
    if line == verb_bye() {
    } else if line == verb_bad_message() {
    } else if has_argument(line, verb_make_move()) {
        let v = verb_make_move();
        assert(with_argument(v, line.skip(v.len() + 1 as int)) =~= line);
    } else if has_argument(line, verb_hello()) {
        let v = verb_hello();
        assert(with_argument(v, line.skip(v.len() + 1 as int)) =~= line);
    }
}

/// A line that is the canonical form of no well-formed message parses to
/// `BadMessage`.
pub proof fn lemma_unrecognized_is_bad(line: Seq<char>)
    requires
        forall|m: MessageView| m.wf() ==> format_spec(m) != line,
    ensures
        parse_spec(line) == MessageView::BadMessage,
{
    lemma_parse_canonical(line);
    if parse_spec(line) != MessageView::BadMessage {
        assert(format_spec(parse_spec(line)) != line);
    }
}

/// Whether the two texts hold the same characters.
fn same_text(a: &str, b: &str) -> (r: bool)
    ensures
        r == (a@ == b@),
{
    let n = a.unicode_len();
    if n != b.unicode_len() {
        return false;
    }
    let mut i: usize = 0;
    while i < n
        invariant
            n == a@.len(),
            n == b@.len(),
            i <= n,
            forall|j: int| 0 <= j < i ==> a@[j] == b@[j],
        decreases n - i,
    {
        if a.get_char(i) != b.get_char(i) {
            return false;
        }
        i = i + 1;
    }
    assert(a@ =~= b@);
    true
}

/// The argument of `line` when it is `verb`, one space and a token.
fn argument_of(line: &str, verb: &str) -> (r: Option<String>)
    ensures
        r is Some <==> has_argument(line@, verb@),
        r is Some ==> r->0@ == line@.skip(verb@.len() + 1 as int),
{
    let n = line.unicode_len();
    let k = verb.unicode_len();
    if k >= n || n - k < 2 {
        return None;
    }
    let mut i: usize = 0;
    while i < k
        invariant
            n == line@.len(),
            k == verb@.len(),
            k + 1 < n,
            i <= k,
            forall|j: int| 0 <= j < i ==> line@[j] == verb@[j],
        decreases k - i,
    {
        if line.get_char(i) != verb.get_char(i) {
            assert(line@.take(k as int)[i as int] != verb@[i as int]);
            return None;
        }
        i = i + 1;
    }
    assert(line@.take(k as int) =~= verb@);
    if line.get_char(k) != ' ' {
        return None;
    }
    let ghost rest = line@.skip(k + 1 as int);
    let mut j: usize = k + 1;
    while j < n
        invariant
            n == line@.len(),
            k == verb@.len(),
            k + 1 <= j <= n,
            rest == line@.skip(k + 1 as int),
            forall|t: int| k + 1 <= t < j ==> line@[t] != ' ',
        decreases n - j,
    {
        if line.get_char(j) == ' ' {
            let ghost idx: int = j - (k + 1);
            assert(rest[idx] == line@[j as int]);
            return None;
        }
        j = j + 1;
    }
    assert forall|t: int| 0 <= t < rest.len() implies rest[t] != ' ' by {
        assert(rest[t] == line@[t + k + 1]);
    }
    let arg = line.substring_char(k + 1, n);
    assert(arg@ =~= rest);
    Some(String::from_str(arg))
}

impl Message {
    /// The canonical text form of this message.
    pub fn format(&self) -> (r: String)
        ensures
            r@ == format_spec(self@),
    {
        proof {
            reveal_strlit("make_move ");
            reveal_strlit("hello ");
            reveal_strlit("bye");
            reveal_strlit("bad_message");
        }
        match self {
            Message::MakeMove(a) => {
                let r = String::from_str("make_move ").concat(a.as_str());
                assert(r@ =~= format_spec(self@));
                r
            },
            Message::Hello(a) => {
                let r = String::from_str("hello ").concat(a.as_str());
                assert(r@ =~= format_spec(self@));
                r
            },
            Message::Bye => {
                let r = String::from_str("bye");
                assert(r@ =~= format_spec(self@));
                r
            },
            Message::BadMessage => {
                let r = String::from_str("bad_message");
                assert(r@ =~= format_spec(self@));
                r
            },
        }
    }

    /// The message that `line` denotes; never fails, an unrecognised line
    /// gives `BadMessage`.
    pub fn parse(line: &str) -> (r: Message)
        ensures
            r@ == parse_spec(line@),
    {
        proof {
            reveal_strlit("make_move");
            reveal_strlit("hello");
            reveal_strlit("bye");
            reveal_strlit("bad_message");
            assert("make_move"@ =~= verb_make_move());
            assert("hello"@ =~= verb_hello());
            assert("bye"@ =~= verb_bye());
            assert("bad_message"@ =~= verb_bad_message());
        }
        if same_text(line, "bye") {
            Message::Bye
        } else if same_text(line, "bad_message") {
            Message::BadMessage
        } else {
            match argument_of(line, "make_move") {
                Some(a) => Message::MakeMove(a),
                None => match argument_of(line, "hello") {
                    Some(a) => Message::Hello(a),
                    None => Message::BadMessage,
                },
            }
        }
    }
}

} // verus!
