//! Replies of the session interface.

use vstd::prelude::*;

use crate::numbers;
use crate::session::{SessionListResponse, SessionResponse, SessionResponseView, SessionSummaryView};
use crate::text;

verus! {

/// What a reply carries.
pub enum ReplyBody {
    /// Nothing.
    Empty,
    /// A JSON text.
    Text(String),
    /// A session.
    Session(SessionResponse),
    /// A list of sessions.
    Sessions(SessionListResponse),
}

/// A reply to a request of the session interface.
pub struct Reply {
    /// The HTTP status.
    pub status: u16,
    /// What it carries.
    pub body: ReplyBody,
}

/// The view of what a reply carries.
pub enum BodyView {
    /// Nothing.
    Empty,
    /// A JSON text.
    Text(Seq<char>),
    /// A session.
    Session(SessionResponseView),
    /// A list of sessions.
    Sessions(Seq<SessionSummaryView>),
}

/// The view of a reply.
pub struct ReplyView {
    /// The HTTP status.
    pub status: u16,
    /// What it carries.
    pub body: BodyView,
}

impl View for Reply {
    type V = ReplyView;

    open spec fn view(&self) -> ReplyView {
        ReplyView {
            status: self.status,
            body: match self.body {
                ReplyBody::Empty => BodyView::Empty,
                ReplyBody::Text(s) => BodyView::Text(s@),
                ReplyBody::Session(s) => BodyView::Session(s@),
                ReplyBody::Sessions(l) => BodyView::Sessions(
                    crate::session::summary_views(l.sessions@),
                ),
            },
        }
    }
}

impl Reply {
    /// The content type of what it carries, if it carries anything.
    pub fn content_type(&self) -> (r: Option<&'static str>)
        ensures
            match r {
                Some(s) => !(self@.body is Empty) && s@ == "application/json"@,
                None => self@.body is Empty,
            },
    {
        match self.body {
            ReplyBody::Empty => None,
            _ => Some("application/json"),
        }
    }
}

/// A character as it stands in a JSON string: a backslash goes before a quotation mark
/// and before a backslash, and a control character is written by its number.
pub open spec fn json_char(c: char) -> Seq<char> {
    if c == '"' || c == '\\' {
        seq!['\\', c]
    } else if (c as int) < 0x20 {
        seq!['\\', 'u', '0', '0', numbers::hex_digit(c as int / 16), numbers::hex_digit(c as int % 16)]
    } else {
        seq![c]
    }
}

/// A text as it stands between the quotation marks of a JSON string.
pub open spec fn json_escaped(s: Seq<char>) -> Seq<char>
    decreases s.len(),
{
    if s.len() == 0 {
        Seq::empty()
    } else {
        json_char(s[0]) + json_escaped(s.skip(1))
    }
}

fn push_json_char(r: &mut String, c: char)
    ensures
        final(r)@ == old(r)@ + json_char(c),
{
    let ghost before = r@;
    if c == '"' || c == '\\' {
        r.push('\\');
        r.push(c);
    } else if (c as u32) < 0x20 {
        let n: u8 = c as u8;
        r.push('\\');
        r.push('u');
        r.push('0');
        r.push('0');
        r.push(numbers::hex_char(n / 16));
        r.push(numbers::hex_char(n % 16));
    } else {
        r.push(c);
    }
    proof {
        assert(r@ =~= before + json_char(c));
    }
}

/// A text as it stands between the quotation marks of a JSON string.
pub fn escape_json(s: &str) -> (r: String)
    ensures
        r@ == json_escaped(s@),
{
    let cs = text::chars_of(s);
    let mut r = String::new();
    let mut i: usize = 0;
    proof {
        assert(cs@.skip(0) =~= cs@);
        assert(r@ + json_escaped(cs@.skip(0)) =~= json_escaped(cs@));
    }
    while i < cs.len()
        invariant
            i <= cs@.len(),
            r@ + json_escaped(cs@.skip(i as int)) == json_escaped(cs@),
        decreases cs@.len() - i,
    {
        let c: char = cs[i];
        let ghost before = r@;
        proof {
            assert(cs@.skip(i as int)[0] == c);
            assert(cs@.skip(i as int).skip(1) =~= cs@.skip(i + 1));
        }
        push_json_char(&mut r, c);
        proof {
            assert(before + (json_char(c) + json_escaped(cs@.skip(i + 1))) =~= r@ + json_escaped(
                cs@.skip(i + 1),
            ));
        }
        i = i + 1;
    }
    proof {
        assert(json_escaped(cs@.skip(i as int)) =~= Seq::empty());
        assert(r@ + Seq::<char>::empty() =~= r@);
    }
    r
}

/// The JSON text of an error.
pub open spec fn error_body(code: Seq<char>, message: Seq<char>) -> Seq<char> {
    "{\"error\":{\"code\":\""@ + code + "\",\"message\":\""@ + json_escaped(message) + "\"}}"@
}

/// The JSON text of an error with its detail.
pub open spec fn detailed_error_body(
    code: Seq<char>,
    message: Seq<char>,
    detail: Seq<char>,
) -> Seq<char> {
    "{\"error\":{\"code\":\""@ + code + "\",\"message\":\""@ + json_escaped(message)
        + "\",\"detail\":\""@ + json_escaped(detail) + "\"}}"@
}

/// A reply with that JSON text.
pub open spec fn text_reply(status: u16, body: Seq<char>) -> ReplyView {
    ReplyView { status, body: BodyView::Text(body) }
}

/// The reply that tells of an error.
pub open spec fn error_reply(status: u16, code: Seq<char>, message: Seq<char>) -> ReplyView {
    text_reply(status, error_body(code, message))
}

/// A reply with that JSON text.
pub fn json_response(status: u16, body: &str) -> (r: Reply)
    ensures
        r@ == text_reply(status, body@),
{
    Reply { status, body: ReplyBody::Text(body.to_owned()) }
}

/// The reply that tells of an error.
pub fn error_response(status: u16, code: &str, message: &str) -> (r: Reply)
    ensures
        r@ == error_reply(status, code@, message@),
{
    let mut body = "{\"error\":{\"code\":\"".to_owned();
    body.append(code);
    body.append("\",\"message\":\"");
    body.append(escape_json(message).as_str());
    body.append("\"}}");
    Reply { status, body: ReplyBody::Text(body) }
}

/// The reply that tells of an error and of its detail.
pub fn error_response_with_detail(status: u16, code: &str, message: &str, detail: &str) -> (r:
    Reply)
    ensures
        r@ == text_reply(status, detailed_error_body(code@, message@, detail@)),
{
    let mut body = "{\"error\":{\"code\":\"".to_owned();
    body.append(code);
    body.append("\",\"message\":\"");
    body.append(escape_json(message).as_str());
    body.append("\",\"detail\":\"");
    body.append(escape_json(detail).as_str());
    body.append("\"}}");
    Reply { status, body: ReplyBody::Text(body) }
}

// ---------------------------------------------------------------------------
// Reading JSON strings
// ---------------------------------------------------------------------------

/// The number that a hexadecimal digit writes.
pub open spec fn hex_value(c: char) -> Option<int> {
    if '0' <= c && c <= '9' {
        Some(c as int - '0' as int)
    } else if 'a' <= c && c <= 'f' {
        Some(c as int - 'a' as int + 10)
    } else if 'A' <= c && c <= 'F' {
        Some(c as int - 'A' as int + 10)
    } else {
        None
    }
}

/// The number that four hexadecimal digits write.
pub open spec fn hex_four(a: char, b: char, c: char, d: char) -> Option<int> {
    match (hex_value(a), hex_value(b), hex_value(c), hex_value(d)) {
        (Some(w), Some(x), Some(y), Some(z)) => Some(4096 * w + 256 * x + 16 * y + z),
        _ => None,
    }
}

/// The character that a backslash and `c` stand for in a JSON string.
pub open spec fn escape_value(c: char) -> Option<char> {
    if c == '"' || c == '\\' || c == '/' {
        Some(c)
    } else if c == 'b' {
        Some(8u8 as char)
    } else if c == 't' {
        Some('\t')
    } else if c == 'n' {
        Some('\n')
    } else if c == 'f' {
        Some(12u8 as char)
    } else if c == 'r' {
        Some('\r')
    } else {
        None
    }
}

/// What a JSON reader makes of what follows the opening quotation mark of a string: the
/// text of the string, and what follows its closing quotation mark. A number that is
/// one half of a surrogate pair is not read here.
pub open spec fn json_string(s: Seq<char>) -> Option<(Seq<char>, Seq<char>)>
    decreases s.len(),
{
    if s.len() == 0 || (s[0] as int) < 0x20 {
        None
    } else if s[0] == '"' {
        Some((Seq::empty(), s.skip(1)))
    } else {
        let (c, used) = if s[0] != '\\' {
            (Some(s[0]), 1int)
        } else if s.len() < 2 {
            (None, 1int)
        } else if s[1] != 'u' {
            (escape_value(s[1]), 2int)
        } else if s.len() < 6 {
            (None, 1int)
        } else {
            match hex_four(s[2], s[3], s[4], s[5]) {
                Some(n) => if 0xD800 <= n <= 0xDFFF {
                    (None, 6int)
                } else {
                    (Some(n as char), 6int)
                },
                None => (None, 6int),
            }
        };
        match (c, json_string(s.skip(used))) {
            (Some(c), Some((value, rest))) => Some((seq![c] + value, rest)),
            _ => None,
        }
    }
}

proof fn lemma_char_number(c: char)
    ensures
        0 <= c as int,
{
}

proof fn lemma_hex_digit(n: int)
    requires
        0 <= n < 16,
    ensures
        hex_value(numbers::hex_digit(n)) == Some(n),
{
}

/// What is escaped for a JSON string is read back as it was, and the string ends where
/// it was closed: nothing in the text ends it before.
pub proof fn law_json_string_reads_back(text: Seq<char>, rest: Seq<char>)
    ensures
        json_string(json_escaped(text) + seq!['"'] + rest) == Some((text, rest)),
    decreases text.len(),
{
    let s = json_escaped(text) + seq!['"'] + rest;
    if text.len() == 0 {
        assert(s[0] == '"');
        assert(s.skip(1) =~= rest);
        assert(text =~= Seq::empty());
    } else {
        let c = text[0];
        let e = json_char(c);
        let tail = json_escaped(text.skip(1)) + seq!['"'] + rest;
        law_json_string_reads_back(text.skip(1), rest);
        assert(s =~= e + tail);
        assert(s.skip(e.len() as int) =~= tail);
        assert(s[0] == e[0]);
        assert(seq![c] + text.skip(1) =~= text);
        if c == '"' || c == '\\' {
            assert(s[1] == c);
        } else if (c as int) < 0x20 {
            let n = c as int;
            lemma_char_number(c);
            assert(s[1] == 'u' && s[2] == '0' && s[3] == '0');
            assert(s[4] == numbers::hex_digit(n / 16) && s[5] == numbers::hex_digit(n % 16));
            lemma_hex_digit(0);
            lemma_hex_digit(n / 16);
            lemma_hex_digit(n % 16);
            assert(numbers::hex_digit(0) == '0');
            assert(hex_four(s[2], s[3], s[4], s[5]) == Some(n));
        }
    }
}

/// Whether a text stands in a JSON string as it is.
pub open spec fn json_plain(s: Seq<char>) -> bool {
    forall|i: int| 0 <= i < s.len() ==> #[trigger] s[i] != '"' && s[i] != '\\' && s[i] as int >= 0x20
}

proof fn lemma_plain_is_itself(s: Seq<char>)
    requires
        json_plain(s),
    ensures
        json_escaped(s) == s,
    decreases s.len(),
{
    if s.len() > 0 {
        assert(json_plain(s.skip(1))) by {
            assert forall|i: int| 0 <= i < s.skip(1).len() implies #[trigger] s.skip(1)[i] != '"'
                && s.skip(1)[i] != '\\' && s.skip(1)[i] as int >= 0x20 by {
                assert(s.skip(1)[i] == s[i + 1]);
            }
        }
        lemma_plain_is_itself(s.skip(1));
        assert(s[0] != '"' && s[0] != '\\');
        assert(seq![s[0]] + s.skip(1) =~= s);
    } else {
        assert(json_escaped(s) =~= s);
    }
}

/// The body of an error is the JSON envelope, whatever the message: after
/// `{"error":{"code":"` the code is read, after `,"message":"` the message, and what is
/// left closes the envelope.
pub proof fn law_error_body_reads_back(code: Seq<char>, message: Seq<char>)
    requires
        json_plain(code),
    ensures
        ({
            let start = "{\"error\":{\"code\":\""@;
            let between = ",\"message\":\""@;
            let after_code = between + json_escaped(message) + "\"}}"@;
            &&& start.is_prefix_of(error_body(code, message))
            &&& json_string(error_body(code, message).skip(start.len() as int)) == Some(
                (code, after_code),
            )
            &&& json_string(after_code.skip(between.len() as int)) == Some((message, "}}"@))
        }),
{
    let start = "{\"error\":{\"code\":\""@;
    let between = ",\"message\":\""@;
    let body = error_body(code, message);
    reveal_strlit("\",\"message\":\"");
    reveal_strlit(",\"message\":\"");
    reveal_strlit("\"}}");
    reveal_strlit("}}");
    lemma_plain_is_itself(code);
    let after_code = between + json_escaped(message) + "\"}}"@;
    assert("\",\"message\":\""@ =~= seq!['"'] + between);
    assert("\"}}"@ =~= seq!['"'] + "}}"@);
    assert(body.take(start.len() as int) =~= start);
    assert(body.skip(start.len() as int) =~= json_escaped(code) + seq!['"'] + after_code);
    law_json_string_reads_back(code, after_code);
    assert(after_code.skip(between.len() as int) =~= json_escaped(message) + seq!['"'] + "}}"@);
    law_json_string_reads_back(message, "}}"@);
}

/// The same of a body with a detail.
pub proof fn law_detailed_error_body_reads_back(
    code: Seq<char>,
    message: Seq<char>,
    detail: Seq<char>,
)
    requires
        json_plain(code),
    ensures
        ({
            let start = "{\"error\":{\"code\":\""@;
            let between = ",\"message\":\""@;
            let tail = ",\"detail\":\""@;
            let after_message = tail + json_escaped(detail) + "\"}}"@;
            let after_code = between + json_escaped(message) + seq!['"'] + after_message;
            let body = detailed_error_body(code, message, detail);
            &&& start.is_prefix_of(body)
            &&& json_string(body.skip(start.len() as int)) == Some((code, after_code))
            &&& json_string(after_code.skip(between.len() as int)) == Some(
                (message, after_message),
            )
            &&& json_string(after_message.skip(tail.len() as int)) == Some((detail, "}}"@))
        }),
{
    let start = "{\"error\":{\"code\":\""@;
    let between = ",\"message\":\""@;
    let tail = ",\"detail\":\""@;
    let body = detailed_error_body(code, message, detail);
    reveal_strlit("\",\"message\":\"");
    reveal_strlit(",\"message\":\"");
    reveal_strlit("\",\"detail\":\"");
    reveal_strlit(",\"detail\":\"");
    reveal_strlit("\"}}");
    reveal_strlit("}}");
    lemma_plain_is_itself(code);
    let after_message = tail + json_escaped(detail) + "\"}}"@;
    let after_code = between + json_escaped(message) + seq!['"'] + after_message;
    assert("\",\"message\":\""@ =~= seq!['"'] + between);
    assert("\",\"detail\":\""@ =~= seq!['"'] + tail);
    assert("\"}}"@ =~= seq!['"'] + "}}"@);
    assert(body.take(start.len() as int) =~= start);
    assert(body.skip(start.len() as int) =~= json_escaped(code) + seq!['"'] + after_code);
    law_json_string_reads_back(code, after_code);
    assert(after_code.skip(between.len() as int) =~= json_escaped(message) + seq!['"']
        + after_message);
    law_json_string_reads_back(message, after_message);
    assert(after_message.skip(tail.len() as int) =~= json_escaped(detail) + seq!['"'] + "}}"@);
    law_json_string_reads_back(detail, "}}"@);
}

/// An error is told with the status that it was made with, and a reply with a text holds
/// that text.
pub proof fn law_error_is_told(
    status: u16,
    code: Seq<char>,
    message: Seq<char>,
    body: Seq<char>,
)
    ensures
        text_reply(status, body).status == status,
        text_reply(status, body).body == BodyView::Text(body),
        error_reply(status, code, message).status == status,
        error_reply(status, code, message).body == BodyView::Text(error_body(code, message)),
{
}

/// A reply is seen with all that it holds.
pub proof fn law_reply_is_seen_whole(r: Reply)
    ensures
        r@.status == r.status,
        r.body is Empty <==> r@.body is Empty,
        r.body matches ReplyBody::Text(s) ==> r@.body == BodyView::Text(s@),
        r.body matches ReplyBody::Session(s) ==> r@.body == BodyView::Session(s@),
        r.body matches ReplyBody::Sessions(l) ==> (r@.body matches BodyView::Sessions(v) && v.len()
            == l.sessions@.len() && forall|i: int|
            0 <= i < v.len() ==> #[trigger] v[i] == l.sessions@[i]@),
{
}

} // verus!
