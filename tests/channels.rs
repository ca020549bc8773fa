use chess_link::connection::{Connection, EchoConnection, SelfConnection};
use chess_link::framing::{frame_message, FrameReader, FrameStep};
use chess_link::protocol::Message;
use chess_link::relay::{classify_status, message_body, payload_of, PollStep, RelayFault, RelaySession, StatusClass};

fn all_messages() -> Vec<Message> {
    vec![
        Message::MakeMove(String::from("e2e4")),
        Message::MakeMove(String::from("a7a8q")),
        Message::Hello(String::from("two")),
        Message::Bye,
        Message::BadMessage,
    ]
}

#[test]
fn format_gives_canonical_lines() {
    assert_eq!(Message::MakeMove(String::from("e2e4")).format(), "make_move e2e4");
    assert_eq!(Message::Hello(String::from("two")).format(), "hello two");
    assert_eq!(Message::Bye.format(), "bye");
    assert_eq!(Message::BadMessage.format(), "bad_message");
}

#[test]
fn parse_format_round_trip() {
    for m in all_messages() {
        let line = m.format();
        assert_eq!(Message::parse(&line), m);
    }
}

#[test]
fn parse_rejects_malformed_lines() {
    let bad = [
        "",
        "make_move",
        "make_move ",
        "make_move e2e4 extra",
        "make_move  e2e4",
        "make_move e2e4 ",
        "bye now",
        "Bye",
        " bye",
        "hello",
        "resign",
        "make_movee2e4",
    ];
    for line in bad.iter() {
        assert_eq!(Message::parse(line), Message::BadMessage, "line {:?}", line);
    }
}

#[test]
fn parse_accepts_unicode_argument() {
    assert_eq!(Message::parse("hello joué"), Message::Hello(String::from("joué")));
}

fn deliver(reader: &mut FrameReader, chunks: &[&[u8]]) -> Vec<FrameStep> {
    chunks.iter().map(|c| reader.push(c)).collect()
}

#[test]
fn frame_split_at_every_point() {
    let wire = b"make_move e2e4\r\n";
    for k in 1..wire.len() {
        let mut reader = FrameReader::new();
        let steps = deliver(&mut reader, &[&wire[..k], &wire[k..]]);
        assert_eq!(steps[0], FrameStep::NeedMore, "split at {}", k);
        assert_eq!(steps[1], FrameStep::Ready(String::from("make_move e2e4")), "split at {}", k);
    }
}

#[test]
fn frame_strips_null_bytes() {
    let mut reader = FrameReader::new();
    let step = reader.push(b"\0make_\0move e2\0e4\0\r\n\0\0");
    assert_eq!(step, FrameStep::Ready(String::from("make_move e2e4")));
}

#[test]
fn frame_strips_null_inside_delimiter() {
    let mut reader = FrameReader::new();
    assert_eq!(reader.push(b"bye\r\0"), FrameStep::NeedMore);
    assert_eq!(reader.push(b"\n"), FrameStep::NeedMore);
    assert_eq!(reader.push(b"\r\n"), FrameStep::Ready(String::from("bye")));
}

#[test]
fn frame_end_of_stream_hands_out_rest() {
    let mut reader = FrameReader::new();
    assert_eq!(reader.push(b"make_mo"), FrameStep::NeedMore);
    assert_eq!(reader.push(b""), FrameStep::Ready(String::from("make_mo")));
    assert_eq!(reader.push(b""), FrameStep::Ready(String::new()));
}

#[test]
fn frame_rejects_invalid_utf8() {
    let mut reader = FrameReader::new();
    assert_eq!(reader.push(&[0xff, 0xfe, b'\r', b'\n']), FrameStep::Undecodable);
    assert_eq!(reader.push(b"bye\r\n"), FrameStep::Ready(String::from("bye")));
}

#[test]
fn frame_checks_utf8_before_stripping() {
    let mut reader = FrameReader::new();
    assert_eq!(reader.push(&[0xc3, 0x00, 0xa9, b'\r', b'\n']), FrameStep::Undecodable);
    assert_eq!(reader.push(&[0xc3, 0xa9, 0x00, b'\r', b'\n']), FrameStep::Ready(String::from("é")));
}

#[test]
fn frame_keeps_all_but_nulls() {
    let mut reader = FrameReader::new();
    assert_eq!(reader.push(b"ab\0cd"), FrameStep::NeedMore);
    assert_eq!(reader.push(b"\r\n"), FrameStep::Ready(String::from("abcd")));
}

#[test]
fn relay_join_body_escapes() {
    let s = RelaySession::new("http://relay", "a\"b", "one");
    assert_eq!(s.join_body(), r#"{"name":"a\"b","nextMessage":{"message":"hello a\"b"}}"#);
}

#[test]
fn frame_message_appends_delimiter() {
    assert_eq!(frame_message("make_move e7e5"), b"make_move e7e5\r\n".to_vec());
    assert_eq!(frame_message("joué"), "joué\r\n".as_bytes().to_vec());
}

#[test]
fn host_and_dial_exchange_one_move() {
    let wire = frame_message("make_move e7e5");
    let mut reader = FrameReader::new();
    let mut delivered = Vec::new();
    for chunk in wire.chunks(4) {
        if let FrameStep::Ready(t) = reader.push(chunk) {
            delivered.push(t);
        }
    }
    assert_eq!(delivered, vec![String::from("make_move e7e5")]);
}

#[test]
fn status_classes() {
    assert_eq!(classify_status(200), StatusClass::Usable);
    assert_eq!(classify_status(399), StatusClass::Usable);
    assert_eq!(classify_status(400), StatusClass::ClientError);
    assert_eq!(classify_status(404), StatusClass::ClientError);
    assert_eq!(classify_status(499), StatusClass::ClientError);
    assert_eq!(classify_status(500), StatusClass::ServerError);
    assert_eq!(classify_status(503), StatusClass::ServerError);
    assert_eq!(classify_status(600), StatusClass::Usable);
}

#[test]
fn relay_urls() {
    let s = RelaySession::new("http://relay:8000", "two", "one");
    assert_eq!(s.join_url(), "http://relay:8000/clients");
    assert_eq!(s.message_url(), "http://relay:8000/clients/two/message");
    assert_eq!(s.peer_url(), "http://relay:8000/clients/one");
    assert_eq!(s.last_seen(), "");
}

#[test]
fn relay_bodies() {
    let s = RelaySession::new("http://relay", "two", "one");
    assert_eq!(s.join_body(), r#"{"name":"two","nextMessage":{"message":"hello two"}}"#);
    assert_eq!(message_body("make_move e2e4"), r#"{"message":"make_move e2e4"}"#);
    assert_eq!(message_body("say \"hi\""), r#"{"message":"say \"hi\""}"#);
}

#[test]
fn relay_payload_extraction() {
    let body = r#"{"name":"one","nextMessage":{"message":"make_move e7e5"}}"#;
    assert_eq!(payload_of(body), Some(String::from("make_move e7e5")));
    assert_eq!(payload_of("not json"), None);
    assert_eq!(payload_of(r#"{"name":"one"}"#), None);
    assert_eq!(payload_of(r#"{"nextMessage":{"message":7}}"#), None);
}

#[test]
fn relay_no_duplicate_delivery() {
    let mut s = RelaySession::new("http://relay", "two", "one");
    let body = r#"{"nextMessage":{"message":"hello one"}}"#;
    assert_eq!(s.on_poll(200, body), PollStep::Deliver(String::from("hello one")));
    assert_eq!(s.last_seen(), "hello one");
    assert_eq!(s.on_poll(200, body), PollStep::Wait);
    assert_eq!(s.on_poll(200, body), PollStep::Wait);
    let moved = r#"{"nextMessage":{"message":"make_move e7e5"}}"#;
    assert_eq!(s.on_poll(200, moved), PollStep::Deliver(String::from("make_move e7e5")));
    assert_eq!(s.last_seen(), "make_move e7e5");
}

#[test]
fn relay_observe_direct() {
    let mut s = RelaySession::new("http://relay", "two", "one");
    assert_eq!(s.observe(String::from("a")), Some(String::from("a")));
    assert_eq!(s.observe(String::from("a")), None);
    assert_eq!(s.observe(String::from("b")), Some(String::from("b")));
    assert_eq!(s.last_seen(), "b");
}

#[test]
fn relay_errors() {
    let mut s = RelaySession::new("http://relay", "two", "one");
    assert_eq!(s.on_poll(503, "oops"), PollStep::Wait);
    assert_eq!(s.on_poll(404, "{}"), PollStep::Fault(RelayFault::Rejected(404)));
    assert_eq!(s.on_poll(200, "<html>"), PollStep::Fault(RelayFault::BadResponse));
    assert_eq!(s.last_seen(), "");
}

#[test]
fn local_stand_in_answers() {
    let c = SelfConnection::new();
    assert_eq!(c.answer("exit"), "bye");
    assert_eq!(c.answer("e2e"), "bad_message");
    assert_eq!(c.answer("e2e4q"), "bad_message");
    assert_eq!(c.answer(""), "bad_message");
    assert_eq!(c.answer("e2e4"), "make_move e2e4");
    assert_eq!(Message::parse(&c.answer("e2e4")), Message::MakeMove(String::from("e2e4")));
    assert_eq!(c.answer("éééé"), "make_move éééé");
}

#[test]
fn local_stand_in_send_and_get() {
    let mut c = SelfConnection::new();
    assert!(c.send_message("make_move e2e4"));
    assert_eq!(c.get_message(), Ok(String::from("Nothing")));
}

#[test]
fn null_channel_is_constant() {
    let mut c = EchoConnection::new();
    assert!(c.send_message("anything"));
    assert!(c.send_message(""));
    assert_eq!(c.wait_for_message(), Ok(String::from("make_move e7e5")));
    assert_eq!(c.wait_for_message(), Ok(String::from("make_move e7e5")));
    assert_eq!(c.get_message(), Ok(String::from("Nothing")));
}
