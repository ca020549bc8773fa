//! Message framing over a byte stream: each message is its text followed by
//! the two bytes `\r\n`; the receiving side accumulates bytes until a
//! delimiter arrives.
use vstd::prelude::*;
use vstd::utf8::{
    char_u32_cast, decode_utf8, encode_scalar, encode_utf8, encode_utf8_decode_utf8,
    encode_utf8_valid_utf8, valid_utf8,
};
use vstd::string::StringSliceAdditionalSpecFns;

verus! {

pub const CARRIAGE_RETURN: u8 = 13;

pub const LINE_FEED: u8 = 10;

/// Whether the end-of-message delimiter starts at index `i` of `s`.
pub open spec fn is_delimiter_at(s: Seq<u8>, i: int) -> bool {
    0 <= i && i + 1 < s.len() && s[i] == CARRIAGE_RETURN && s[i + 1] == LINE_FEED
}

/// Whether `s` holds the end-of-message delimiter somewhere.
pub open spec fn has_delimiter(s: Seq<u8>) -> bool {
    exists|i: int| is_delimiter_at(s, i)
}

/// Whether a line break, `\r` then `\n`, starts at index `i` of `s`.
pub open spec fn is_break_at(s: Seq<char>, i: int) -> bool {
    0 <= i && i + 1 < s.len() && s[i] == '\r' && s[i + 1] == '\n'
}

/// `s` with every null character removed.
pub open spec fn strip_nulls(s: Seq<char>) -> Seq<char>
    decreases s.len(),
{
    if s.len() == 0 {
        s
    } else if s[0] == '\0' {
        strip_nulls(s.skip(1))
    } else {
        seq![s[0]] + strip_nulls(s.skip(1))
    }
}

/// `s` with every `\r\n` removed, scanning from left to right.
pub open spec fn strip_breaks(s: Seq<char>) -> Seq<char>
    decreases s.len(),
{
    if s.len() == 0 {
        s
    } else if is_break_at(s, 0) {
        strip_breaks(s.skip(2))
    } else {
        seq![s[0]] + strip_breaks(s.skip(1))
    }
}

/// The message carried by the decoded text of an accumulated buffer: null
/// characters first removed, then delimiters.
pub open spec fn message_text(s: Seq<char>) -> Seq<char> {
    strip_breaks(strip_nulls(s))
}

/// The bytes sent on the wire for one message.
pub open spec fn framed(text: Seq<u8>) -> Seq<u8> {
    text + seq![CARRIAGE_RETURN, LINE_FEED]
}

/// A text that can be framed unambiguously: no null character and no `\r`.
pub open spec fn frameable(s: Seq<char>) -> bool {
    forall|i: int| 0 <= i < s.len() ==> s[i] != '\0' && s[i] != '\r'
}

proof fn lemma_strip_nulls_keeps_absent(s: Seq<char>, c: char)
    requires
        forall|i: int| 0 <= i < s.len() ==> s[i] != c,
    ensures
        forall|i: int| 0 <= i < strip_nulls(s).len() ==> strip_nulls(s)[i] != c,
    decreases s.len(),
{
    if s.len() > 0 {
        assert forall|i: int| 0 <= i < s.skip(1).len() implies s.skip(1)[i] != c by {
            assert(s.skip(1)[i] == s[i + 1]);
        }
        lemma_strip_nulls_keeps_absent(s.skip(1), c);
        let r = strip_nulls(s.skip(1));
        if s[0] != '\0' {
            assert forall|i: int| 0 <= i < strip_nulls(s).len() implies strip_nulls(s)[i] != c by {
                if i > 0 {
                    assert(strip_nulls(s)[i] == r[i - 1]);
                } else {
                    assert(strip_nulls(s)[0] == s[0]);
                }
            }
        }
    }
}

proof fn lemma_strip_breaks_keeps_absent(s: Seq<char>, c: char)
    requires
        forall|i: int| 0 <= i < s.len() ==> s[i] != c,
    ensures
        forall|i: int| 0 <= i < strip_breaks(s).len() ==> strip_breaks(s)[i] != c,
    decreases s.len(),
{
    if s.len() == 0 {
    } else if is_break_at(s, 0) {
        assert forall|i: int| 0 <= i < s.skip(2).len() implies s.skip(2)[i] != c by {
            assert(s.skip(2)[i] == s[i + 2]);
        }
        lemma_strip_breaks_keeps_absent(s.skip(2), c);
        assert(strip_breaks(s) == strip_breaks(s.skip(2)));
    } else {
        assert forall|i: int| 0 <= i < s.skip(1).len() implies s.skip(1)[i] != c by {
            assert(s.skip(1)[i] == s[i + 1]);
        }
        lemma_strip_breaks_keeps_absent(s.skip(1), c);
        let r = strip_breaks(s.skip(1));
        assert forall|i: int| 0 <= i < strip_breaks(s).len() implies strip_breaks(s)[i] != c by {
            if i > 0 {
                assert(strip_breaks(s)[i] == r[i - 1]);
            } else {
                assert(strip_breaks(s)[0] == s[0]);
            }
        }
    }
}

proof fn lemma_strip_nulls_has_none(s: Seq<char>)
    ensures
        forall|i: int| 0 <= i < strip_nulls(s).len() ==> strip_nulls(s)[i] != '\0',
    decreases s.len(),
{
    if s.len() > 0 {
        lemma_strip_nulls_has_none(s.skip(1));
        let r = strip_nulls(s.skip(1));
        if s[0] != '\0' {
            assert forall|i: int| 0 <= i < strip_nulls(s).len() implies strip_nulls(s)[i]
                != '\0' by {
                if i > 0 {
                    assert(strip_nulls(s)[i] == r[i - 1]);
                } else {
                    assert(strip_nulls(s)[0] == s[0]);
                }
            }
        }
    }
}

/// The message carried by any accumulated text has no null character.
pub proof fn lemma_message_has_no_nulls(s: Seq<char>)
    ensures
        forall|i: int| 0 <= i < message_text(s).len() ==> message_text(s)[i] != '\0',
{
    lemma_strip_nulls_has_none(s);
    lemma_strip_breaks_keeps_absent(strip_nulls(s), '\0');
}

proof fn lemma_strip_nulls_append_break(t: Seq<char>)
    ensures
        strip_nulls(t + seq!['\r', '\n']) == strip_nulls(t) + seq!['\r', '\n'],
    decreases t.len(),
{
    let crlf = seq!['\r', '\n'];
    if t.len() == 0 {
        assert(t + crlf =~= crlf);
        let lf = seq!['\n'];
        assert(crlf.skip(1) =~= lf);
        assert(lf.skip(1) =~= Seq::<char>::empty());
        assert(strip_nulls(lf) == seq![lf[0]] + strip_nulls(lf.skip(1)));
        assert(strip_nulls(lf) =~= lf);
        assert(strip_nulls(crlf) == seq![crlf[0]] + strip_nulls(crlf.skip(1)));
        assert(strip_nulls(t) + crlf =~= strip_nulls(crlf));
    } else {
        assert((t + crlf).skip(1) =~= t.skip(1) + crlf);
        lemma_strip_nulls_append_break(t.skip(1));
        assert((t + crlf)[0] == t[0]);
        if t[0] != '\0' {
            assert(strip_nulls(t + crlf) =~= strip_nulls(t) + crlf);
        }
    }
}

proof fn lemma_strip_breaks_trailing(u: Seq<char>)
    requires
        forall|i: int| 0 <= i < u.len() ==> u[i] != '\r',
    ensures
        strip_breaks(u + seq!['\r', '\n']) == u,
    decreases u.len(),
{
    let crlf = seq!['\r', '\n'];
    let w = u + crlf;
    if u.len() == 0 {
        assert(is_break_at(w, 0));
        assert(w.skip(2) =~= Seq::<char>::empty());
        assert(strip_breaks(w) == strip_breaks(w.skip(2)));
        assert(u =~= Seq::<char>::empty());
    } else {
        assert(!is_break_at(w, 0));
        let rest = u.skip(1);
        assert forall|i: int| 0 <= i < rest.len() implies rest[i] != '\r' by {
            assert(rest[i] == u[i + 1]);
        }
        assert(w.skip(1) =~= rest + crlf);
        lemma_strip_breaks_trailing(rest);
        assert(strip_breaks(w) == seq![w[0]] + strip_breaks(w.skip(1)));
        assert(seq![u[0]] + rest =~= u);
    }
}

/// A line without `\r`, ended by the delimiter, is received with its null
/// characters removed and every other character kept in order.
pub proof fn lemma_line_message(t: Seq<char>)
    requires
        forall|i: int| 0 <= i < t.len() ==> t[i] != '\r',
    ensures
        message_text(t + seq!['\r', '\n']) == strip_nulls(t),
{
    lemma_strip_nulls_append_break(t);
    lemma_strip_nulls_keeps_absent(t, '\r');
    lemma_strip_breaks_trailing(strip_nulls(t));
}

proof fn lemma_strip_nulls_none(s: Seq<char>)
    requires
        forall|i: int| 0 <= i < s.len() ==> s[i] != '\0',
    ensures
        strip_nulls(s) == s,
    decreases s.len(),
{
    if s.len() > 0 {
        assert forall|i: int| 0 <= i < s.skip(1).len() implies s.skip(1)[i] != '\0' by {
            assert(s.skip(1)[i] == s[i + 1]);
        }
        lemma_strip_nulls_none(s.skip(1));
        assert(seq![s[0]] + s.skip(1) =~= s);
    }
}

proof fn lemma_encode_concat(a: Seq<char>, b: Seq<char>)
    ensures
        encode_utf8(a + b) == encode_utf8(a) + encode_utf8(b),
    decreases a.len(),
{
    if a.len() == 0 {
        assert(a + b =~= b);
        assert(encode_utf8(a) =~= Seq::<u8>::empty());
        assert(encode_utf8(a + b) =~= encode_utf8(a) + encode_utf8(b));
    } else {
        assert((a + b).drop_first() =~= a.drop_first() + b);
        assert((a + b)[0] == a[0]);
        lemma_encode_concat(a.drop_first(), b);
        assert(encode_utf8(a + b) =~= encode_utf8(a) + encode_utf8(b));
    }
}

proof fn lemma_encode_break()
    ensures
        encode_utf8(seq!['\r', '\n']) == seq![CARRIAGE_RETURN, LINE_FEED],
{
    let crlf = seq!['\r', '\n'];
    assert(('\r' as u32) == 13);
    assert(('\n' as u32) == 10);
    assert((13u32 & 0x7F) as u8 == 13u8) by (bit_vector);
    assert((10u32 & 0x7F) as u8 == 10u8) by (bit_vector);
    let lf = seq!['\n'];
    assert(crlf.drop_first() =~= lf);
    assert(lf.drop_first() =~= Seq::<char>::empty());
    assert(encode_utf8(Seq::<char>::empty()) =~= Seq::<u8>::empty());
    assert(encode_scalar(10u32) =~= seq![LINE_FEED]);
    assert(encode_scalar(13u32) =~= seq![CARRIAGE_RETURN]);
    assert(encode_utf8(lf) == encode_scalar(lf[0] as u32) + encode_utf8(lf.drop_first()));
    assert(encode_utf8(lf) =~= seq![LINE_FEED]);
    assert(encode_utf8(crlf) == encode_scalar(crlf[0] as u32) + encode_utf8(crlf.drop_first()));
    assert(encode_utf8(crlf) =~= seq![CARRIAGE_RETURN, LINE_FEED]);
}

proof fn lemma_scalar_avoids(c: char)
    requires
        c != '\0',
        c != '\r',
    ensures
        forall|i: int|
            0 <= i < encode_scalar(c as u32).len() ==> #[trigger] encode_scalar(c as u32)[i] != 0
                && encode_scalar(c as u32)[i] != CARRIAGE_RETURN,
{
    let x = c as u32;
    char_u32_cast(c, x);
    assert(x != 0 && x != 13) by {
        if x == 0 {
            assert((0u32 as char) == '\0');
        }
        if x == 13 {
            assert((13u32 as char) == '\r');
        }
    }
    assert(x <= 0x7F && x != 0 && x != 13 ==> (x & 0x7F) as u8 != 0 && (x & 0x7F) as u8 != 13)
        by (bit_vector);
    assert((0xC0 | ((x >> 6) & 0x1F) as u8) >= 0x80u8) by (bit_vector);
    assert((0xE0 | ((x >> 12) & 0x0F) as u8) >= 0x80u8) by (bit_vector);
    assert((0xF0 | ((x >> 18) & 0x7) as u8) >= 0x80u8) by (bit_vector);
    assert((0x80 | (x & 0x3F) as u8) >= 0x80u8) by (bit_vector);
    assert((0x80 | ((x >> 6) & 0x3F) as u8) >= 0x80u8) by (bit_vector);
    assert((0x80 | ((x >> 12) & 0x3F) as u8) >= 0x80u8) by (bit_vector);
}

proof fn lemma_encode_avoids(s: Seq<char>)
    requires
        frameable(s),
    ensures
        forall|i: int|
            0 <= i < encode_utf8(s).len() ==> encode_utf8(s)[i] != 0 && encode_utf8(s)[i]
                != CARRIAGE_RETURN,
    decreases s.len(),
{
    if s.len() > 0 {
        let rest = s.drop_first();
        assert forall|i: int| 0 <= i < rest.len() implies rest[i] != '\0' && rest[i] != '\r' by {
            assert(rest[i] == s[i + 1]);
        }
        lemma_encode_avoids(rest);
        lemma_scalar_avoids(s[0]);
        let head = encode_scalar(s[0] as u32);
        let e = encode_utf8(s);
        assert(e == head + encode_utf8(rest));
        assert forall|i: int| 0 <= i < e.len() implies e[i] != 0 && e[i] != CARRIAGE_RETURN by {
            if i < head.len() {
                assert(e[i] == head[i]);
            } else {
                assert(e[i] == encode_utf8(rest)[i - head.len()]);
            }
        }
    }
}

/// A frameable text, framed and delivered in two reads split at any point:
/// the first read does not complete it, the two reads together hold exactly
/// the framed bytes, which complete it, are valid UTF-8, and carry the text
/// itself.
pub proof fn lemma_split_delivery(s: Seq<char>, k: int)
    requires
        frameable(s),
        0 < k < framed(encode_utf8(s)).len(),
    ensures
        !has_delimiter(Seq::<u8>::empty() + framed(encode_utf8(s)).take(k)),
        framed(encode_utf8(s)).take(k) + framed(encode_utf8(s)).skip(k) == framed(encode_utf8(s)),
        has_delimiter(framed(encode_utf8(s))),
        valid_utf8(framed(encode_utf8(s))),
        message_text(decode_utf8(framed(encode_utf8(s)))) == s,
{
    let e = encode_utf8(s);
    let w = framed(e);
    let crlf = seq!['\r', '\n'];
    lemma_encode_avoids(s);
    let first = Seq::<u8>::empty() + w.take(k);
    assert(first =~= w.take(k));
    assert forall|i: int| !is_delimiter_at(first, i) by {
        if is_delimiter_at(first, i) {
            assert(first[i] == e[i]);
        }
    }
    assert(w.take(k) + w.skip(k) =~= w);
    assert(is_delimiter_at(w, e.len() as int));
    lemma_encode_concat(s, crlf);
    lemma_encode_break();
    assert(encode_utf8(s + crlf) == w);
    encode_utf8_valid_utf8(s + crlf);
    encode_utf8_decode_utf8(s + crlf);
    assert forall|i: int| 0 <= i < s.len() implies s[i] != '\r' by {}
    lemma_line_message(s);
    lemma_strip_nulls_none(s);
}

/// Relies on String::from_utf8: it succeeds exactly when the bytes are valid
/// UTF-8, and the text then holds the characters that the bytes encode.
#[verifier::external_body]
fn decode_text(bytes: Vec<u8>) -> (r: Option<String>)
    ensures
        r is Some <==> valid_utf8(bytes@),
        r is Some ==> r->0@ == decode_utf8(bytes@),
{
    String::from_utf8(bytes).ok()
}

/// The bytes to write on the stream for `text`: its UTF-8 encoding, then the
/// delimiter.
pub fn frame_message(text: &str) -> (r: Vec<u8>)
    ensures
        r@ == framed(text.spec_bytes()),
{
    let bytes = text.as_bytes();
    let mut out: Vec<u8> = Vec::new();
    let mut i: usize = 0;
    while i < bytes.len()
        invariant
            bytes@ == text.spec_bytes(),
            i <= bytes@.len(),
            out@ == bytes@.take(i as int),
        decreases bytes@.len() - i,
    {
        out.push(bytes[i]);
        i = i + 1;
        assert(out@ =~= bytes@.take(i as int));
    }
    assert(bytes@.take(i as int) =~= bytes@);
    out.push(CARRIAGE_RETURN);
    out.push(LINE_FEED);
    assert(out@ =~= framed(text.spec_bytes()));
    out
}

fn contains_delimiter(s: &Vec<u8>) -> (r: bool)
    ensures
        r == has_delimiter(s@),
{
    let n = s.len();
    let mut i: usize = 0;
    while i < n
        invariant
            n == s@.len(),
            i <= n,
            forall|j: int| 0 <= j < i ==> !is_delimiter_at(s@, j),
        decreases n - i,
    {
        if i + 1 < n && s[i] == CARRIAGE_RETURN && s[i + 1] == LINE_FEED {
            assert(is_delimiter_at(s@, i as int));
            return true;
        }
        i = i + 1;
    }
    assert forall|j: int| !is_delimiter_at(s@, j) by {
        if 0 <= j < i {
        }
    }
    false
}

fn remove_nulls(t: &str) -> (r: String)
    ensures
        r@ == strip_nulls(t@),
{
    let n = t.unicode_len();
    let mut out = String::new();
    let mut i: usize = 0;
    assert(out@ + strip_nulls(t@.skip(0)) =~= strip_nulls(t@)) by {
        assert(t@.skip(0) =~= t@);
    }
    while i < n
        invariant
            n == t@.len(),
            i <= n,
            out@ + strip_nulls(t@.skip(i as int)) == strip_nulls(t@),
        decreases n - i,
    {
        assert(t@.skip(i as int).skip(1) =~= t@.skip(i + 1));
        if t.get_char(i) != '\0' {
            let piece = t.substring_char(i, i + 1);
            assert(piece@ =~= seq![t@[i as int]]);
            out.append(piece);
        }
        i = i + 1;
        assert(out@ + strip_nulls(t@.skip(i as int)) =~= strip_nulls(t@));
    }
    assert(strip_nulls(t@.skip(i as int)) =~= Seq::<char>::empty());
    assert(out@ =~= strip_nulls(t@));
    out
}

fn remove_breaks(t: &str) -> (r: String)
    ensures
        r@ == strip_breaks(t@),
{
    let n = t.unicode_len();
    let mut out = String::new();
    let mut i: usize = 0;
    assert(out@ + strip_breaks(t@.skip(0)) =~= strip_breaks(t@)) by {
        assert(t@.skip(0) =~= t@);
    }
    while i < n
        invariant
            n == t@.len(),
            i <= n,
            out@ + strip_breaks(t@.skip(i as int)) == strip_breaks(t@),
        decreases n - i,
    {
        let ghost rest = t@.skip(i as int);
        if i + 1 < n && t.get_char(i) == '\r' && t.get_char(i + 1) == '\n' {
            assert(is_break_at(rest, 0));
            assert(rest.skip(2) =~= t@.skip(i + 2));
            i = i + 2;
        } else {
            assert(!is_break_at(rest, 0));
            assert(rest.skip(1) =~= t@.skip(i + 1));
            let piece = t.substring_char(i, i + 1);
            assert(piece@ =~= seq![t@[i as int]]);
            out.append(piece);
            i = i + 1;
            assert(out@ + strip_breaks(t@.skip(i as int)) =~= strip_breaks(t@));
        }
    }
    assert(strip_breaks(t@.skip(i as int)) =~= Seq::<char>::empty());
    assert(out@ =~= strip_breaks(t@));
    out
}

/// What one read from the stream leads to.
#[derive(Debug, PartialEq, Eq)]
pub enum FrameStep {
    /// No complete message yet: read again.
    NeedMore,
    /// A complete message, decoded, then its null characters and delimiters
    /// removed.
    Ready(String),
    /// A complete message whose bytes, as received, are not valid UTF-8.
    Undecodable,
}

/// The receiving side's accumulation buffer.
pub struct FrameReader {
    pending: Vec<u8>,
}

impl View for FrameReader {
    type V = Seq<u8>;

    closed spec fn view(&self) -> Seq<u8> {
        self.pending@
    }
}

impl FrameReader {
    /// A reader with nothing accumulated.
    pub fn new() -> (r: FrameReader)
        ensures
            r@ == Seq::<u8>::empty(),
    {
        FrameReader { pending: Vec::new() }
    }

    /// Takes the bytes of one read. An empty read is the end of the stream:
    /// what was accumulated is then handed out as the last message. Otherwise
    /// the bytes are appended, and a message is complete once the buffer holds
    /// the delimiter. A complete buffer is decoded as UTF-8 as it was
    /// received, and the buffer is emptied.
    pub fn push(&mut self, chunk: &[u8]) -> (r: FrameStep)
        ensures
            ({
                let acc = old(self)@ + chunk@;
                if chunk@.len() == 0 || has_delimiter(acc) {
                    &&& final(self)@ == Seq::<u8>::empty()
                    &&& match r {
                        FrameStep::Ready(t) => valid_utf8(acc) && t@ == message_text(
                            decode_utf8(acc),
                        ),
                        FrameStep::Undecodable => !valid_utf8(acc),
                        FrameStep::NeedMore => false,
                    }
                } else {
                    r is NeedMore && final(self)@ == acc
                }
            }),
    {
        let ghost acc = self.pending@ + chunk@;
        let mut i: usize = 0;
        while i < chunk.len()
            invariant
                i <= chunk@.len(),
                acc == old(self)@ + chunk@,
                self.pending@ == old(self)@ + chunk@.take(i as int),
            decreases chunk@.len() - i,
        {
            self.pending.push(chunk[i]);
            i = i + 1;
            assert(self.pending@ =~= old(self)@ + chunk@.take(i as int));
        }
        assert(chunk@.take(i as int) =~= chunk@);
        if chunk.len() != 0 && !contains_delimiter(&self.pending) {
            return FrameStep::NeedMore;
        }
        let mut received: Vec<u8> = Vec::new();
        std::mem::swap(&mut received, &mut self.pending);
        match decode_text(received) {
            Some(t) => FrameStep::Ready(remove_breaks(remove_nulls(t.as_str()).as_str())),
            None => FrameStep::Undecodable,
        }
    }
}

} // verus!
