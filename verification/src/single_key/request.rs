//! Reading one request byte by byte, and putting the real key into it.

use vstd::prelude::*;
use vstd::utf8::*;

use crate::bytes;
use crate::numbers;
use crate::proxy::error::ProxyError;
use crate::proxy::rewrite::{utf8_bytes, value_of_header, with_real_key};
use crate::text;
use crate::unicode;

verus! {

// ---------------------------------------------------------------------------
// What the headers say of the body
// ---------------------------------------------------------------------------

/// The length that the first `Content-Length` line gives, if it gives one.
pub open spec fn declared_length(lines: Seq<Seq<char>>) -> Option<nat>
    decreases lines.len(),
{
    if lines.len() == 0 {
        None
    } else {
        match crate::proxy::rewrite::header_value(lines[0], "content-length"@) {
            Some(v) => numbers::parsed(unicode::trim(v), usize::MAX as nat),
            None => declared_length(lines.skip(1)),
        }
    }
}

/// The length that the first `Content-Length` line gives, if it gives one.
pub fn extract_content_length(headers: &str) -> (r: Option<usize>)
    ensures
        match r {
            Some(n) => declared_length(unicode::lines(headers@)) == Some(n as nat),
            None => declared_length(unicode::lines(headers@)) is None,
        },
{
    let cs = text::chars_of(headers);
    let lines = unicode::lines_of(cs.as_slice());
    let name = text::chars_of("content-length");
    let ghost all = text::views(lines@);
    let mut i: usize = 0;
    proof {
        assert(all.skip(0) =~= all);
    }
    while i < lines.len()
        invariant
            all == text::views(lines@),
            all == unicode::lines(headers@),
            name@ == "content-length"@,
            i <= lines@.len(),
            declared_length(all) == declared_length(all.skip(i as int)),
        decreases lines@.len() - i,
    {
        proof {
            assert(all.skip(i as int)[0] == lines@[i as int]@);
            assert(all.skip(i as int).skip(1) =~= all.skip(i + 1));
        }
        match value_of_header(lines[i].as_slice(), name.as_slice()) {
            Some(v) => {
                let v = unicode::trim_chars(v.as_slice());
                return match numbers::parse_number(v.as_slice(), usize::MAX as u64) {
                    Some(n) => Some(n as usize),
                    None => None,
                };
            },
            None => {},
        }
        i = i + 1;
    }
    None
}

/// What a reader waits for.
#[derive(Clone, Copy, Debug, PartialEq, Eq, Structural)]
pub enum Phase {
    /// The end of the headers.
    Head,
    /// The empty chunk.
    Chunks,
    /// This many more bytes of the body.
    Body(usize),
    /// Nothing: the request is complete.
    Done,
}

/// What is waited for after those headers.
pub open spec fn body_phase(head: Seq<char>) -> Phase {
    if text::contains(unicode::lowered(head), "transfer-encoding: chunked"@) {
        Phase::Chunks
    } else {
        match declared_length(unicode::lines(head)) {
            Some(n) => if n == 0 {
                Phase::Done
            } else {
                Phase::Body(n as usize)
            },
            None => Phase::Done,
        }
    }
}

/// What is waited for after those headers.
pub fn phase_after_head(head: &str) -> (p: Phase)
    ensures
        p == body_phase(head@),
{
    let low = unicode::lowercase(head);
    let low = text::chars_of(low.as_str());
    let chunked = text::chars_of("transfer-encoding: chunked");
    if text::has(low.as_slice(), chunked.as_slice()) {
        Phase::Chunks
    } else {
        match extract_content_length(head) {
            Some(n) => if n == 0 {
                Phase::Done
            } else {
                Phase::Body(n)
            },
            None => Phase::Done,
        }
    }
}

// ---------------------------------------------------------------------------
// The reader
// ---------------------------------------------------------------------------

/// The bytes of a request so far, and what is still to come.
pub struct ByteReader {
    /// What has been read.
    pub buf: Vec<u8>,
    /// What is waited for.
    pub phase: Phase,
}

/// A reader's bytes and phase.
pub struct ByteReaderView {
    /// What has been read.
    pub buf: Seq<u8>,
    /// What is waited for.
    pub phase: Phase,
}

impl View for ByteReader {
    type V = ByteReaderView;

    open spec fn view(&self) -> ByteReaderView {
        ByteReaderView { buf: self.buf@, phase: self.phase }
    }
}

/// How much the next read may bring: a byte at a time, so that nothing past the end
/// of the headers or of the chunks is taken.
pub open spec fn wanted_in(phase: Phase) -> usize {
    match phase {
        Phase::Head => 1,
        Phase::Chunks => 1,
        Phase::Body(n) => n,
        Phase::Done => 0,
    }
}

/// The reader once a read has brought `data`; no bytes mean that the peer has
/// closed the connection.
pub open spec fn after_read(r: ByteReaderView, data: Seq<u8>) -> Result<
    ByteReaderView,
    Seq<char>,
> {
    let buf = r.buf + data;
    match r.phase {
        Phase::Head => if buf.len() == 0 {
            Err("empty request from client"@)
        } else if data.len() == 0 || crate::proxy::request::head_mark().is_suffix_of(buf) {
            Ok(ByteReaderView { buf, phase: body_phase(unicode::decoded(buf)) })
        } else {
            Ok(ByteReaderView { buf, phase: Phase::Head })
        },
        Phase::Chunks => if data.len() == 0 || crate::proxy::request::chunk_mark().is_suffix_of(
            buf,
        ) {
            Ok(ByteReaderView { buf, phase: Phase::Done })
        } else {
            Ok(ByteReaderView { buf, phase: Phase::Chunks })
        },
        Phase::Body(n) => if data.len() == 0 || data.len() >= n {
            Ok(ByteReaderView { buf, phase: Phase::Done })
        } else {
            Ok(ByteReaderView { buf, phase: Phase::Body((n - data.len()) as usize) })
        },
        Phase::Done => Ok(r),
    }
}

fn ends_with(buf: &Vec<u8>, mark: &[u8]) -> (r: bool)
    ensures
        r == mark@.is_suffix_of(buf@),
{
    if buf.len() < mark.len() {
        return false;
    }
    let from: usize = buf.len() - mark.len();
    let tail = vstd::slice::slice_subrange(buf.as_slice(), from, buf.len());
    bytes::same_bytes(tail, mark)
}

impl ByteReader {
    /// A reader that has read nothing.
    pub fn new() -> (r: ByteReader)
        ensures
            r@ == (ByteReaderView { buf: Seq::empty(), phase: Phase::Head }),
    {
        let r = ByteReader { buf: Vec::new(), phase: Phase::Head };
        proof {
            assert(r@.buf =~= Seq::empty());
        }
        r
    }

    /// Whether the request is complete.
    pub fn is_done(&self) -> (r: bool)
        ensures
            r == (self.phase == Phase::Done),
    {
        self.phase == Phase::Done
    }

    /// How many bytes the next read may bring at most.
    pub fn wanted(&self) -> (n: usize)
        ensures
            n == wanted_in(self.phase),
    {
        match self.phase {
            Phase::Head => 1,
            Phase::Chunks => 1,
            Phase::Body(n) => n,
            Phase::Done => 0,
        }
    }

    /// Takes in what one read brought; no bytes mean that the peer has closed the
    /// connection.
    pub fn take(&mut self, data: &[u8]) -> (r: Result<(), ProxyError>)
        requires
            data@.len() <= wanted_in(old(self).phase),
        ensures
            match (r, after_read(old(self)@, data@)) {
                (Ok(_), Ok(next)) => final(self)@ == next,
                (Err(ProxyError::Io(m)), Err(e)) => m@ == e,
                _ => false,
            },
    {
        let ghost before = self@;
        if self.is_done() {
            return Ok(());
        }
        self.buf.extend_from_slice(data);
        proof {
            assert(self.buf@ =~= before.buf + data@);
        }
        match self.phase {
            Phase::Head => {
                if self.buf.len() == 0 {
                    return Err(ProxyError::Io("empty request from client".to_owned()));
                }
                let mut mark: Vec<u8> = Vec::new();
                mark.push(13);
                mark.push(10);
                mark.push(13);
                mark.push(10);
                proof {
                    assert(mark@ =~= crate::proxy::request::head_mark());
                }
                if data.len() == 0 || ends_with(&self.buf, mark.as_slice()) {
                    let head = unicode::decode_lossy(self.buf.as_slice());
                    self.phase = phase_after_head(head.as_str());
                }
            },
            Phase::Chunks => {
                let mut mark: Vec<u8> = Vec::new();
                mark.push(48);
                mark.push(13);
                mark.push(10);
                mark.push(13);
                mark.push(10);
                proof {
                    assert(mark@ =~= crate::proxy::request::chunk_mark());
                }
                if data.len() == 0 || ends_with(&self.buf, mark.as_slice()) {
                    self.phase = Phase::Done;
                }
            },
            Phase::Body(n) => {
                if data.len() == 0 || data.len() == n {
                    self.phase = Phase::Done;
                } else {
                    self.phase = Phase::Body(n - data.len());
                }
            },
            Phase::Done => {},
        }
        Ok(())
    }
}

/// A read never changes bytes that the reader has: they are what was read before and
/// then what the read brought.
pub proof fn law_read_keeps_bytes(r: ByteReaderView, data: Seq<u8>)
    requires
        r.phase != Phase::Done,
        after_read(r, data) is Ok,
    ensures
        after_read(r, data)->Ok_0.buf == r.buf + data,
{
}

// ---------------------------------------------------------------------------
// The key
// ---------------------------------------------------------------------------

/// The request with `api_key` in place of any key that the client sent, and with its
/// `Host` header set to `host`.
pub fn rewrite_request(raw: &[u8], api_key: &str, host: &str) -> (out: Vec<u8>)
    ensures
        out@ == encode_utf8(
            crate::proxy::rewrite::rewritten(unicode::decoded(raw@), api_key@, host@),
        ),
{
    let request = unicode::decode_lossy(raw);
    let cs = text::chars_of(request.as_str());
    let out = with_real_key(cs.as_slice(), api_key, host);
    utf8_bytes(out.as_slice())
}

// ---------------------------------------------------------------------------
// Laws
// ---------------------------------------------------------------------------

/// The head of a request ends with its empty line: as soon as the last four bytes are two
/// line breaks, and not before, what follows is the body.
pub proof fn law_head_ends_with_empty_line(r: ByteReaderView, b: u8)
    requires
        r.phase == Phase::Head,
    ensures
        ({
            let buf = r.buf.push(b);
            let n = buf.len() as int;
            let ended = n >= 4 && buf[n - 4] == 13 && buf[n - 3] == 10 && buf[n - 2] == 13 && buf[n
                - 1] == 10;
            &&& !ended ==> after_read(r, seq![b]) == Ok::<ByteReaderView, Seq<char>>(
                ByteReaderView { buf, phase: Phase::Head },
            )
            &&& ended ==> after_read(r, seq![b]) == Ok::<ByteReaderView, Seq<char>>(
                ByteReaderView { buf, phase: body_phase(unicode::decoded(buf)) },
            )
        }),
{
    let buf = r.buf.push(b);
    let n = buf.len() as int;
    assert(r.buf + seq![b] =~= buf);
    let mark = crate::proxy::request::head_mark();
    if n >= 4 {
        let tail = buf.subrange(n - 4, n);
        if mark.is_suffix_of(buf) {
            assert(tail == mark);
            assert(tail[0] == mark[0] && tail[1] == mark[1] && tail[2] == mark[2] && tail[3]
                == mark[3]);
        }
        if buf[n - 4] == 13 && buf[n - 3] == 10 && buf[n - 2] == 13 && buf[n - 1] == 10 {
            assert(tail =~= mark);
        }
    }
}

/// Chunks end with the chunk without content, and not before.
pub proof fn law_chunks_end_with_empty_chunk(r: ByteReaderView, b: u8)
    requires
        r.phase == Phase::Chunks,
    ensures
        ({
            let buf = r.buf.push(b);
            let n = buf.len() as int;
            let ended = n >= 5 && buf[n - 5] == 48 && buf[n - 4] == 13 && buf[n - 3] == 10 && buf[n
                - 2] == 13 && buf[n - 1] == 10;
            after_read(r, seq![b]) == Ok::<ByteReaderView, Seq<char>>(
                ByteReaderView {
                    buf,
                    phase: if ended {
                        Phase::Done
                    } else {
                        Phase::Chunks
                    },
                },
            )
        }),
{
    let buf = r.buf.push(b);
    let n = buf.len() as int;
    assert(r.buf + seq![b] =~= buf);
    let mark = crate::proxy::request::chunk_mark();
    if n >= 5 {
        let tail = buf.subrange(n - 5, n);
        if mark.is_suffix_of(buf) {
            assert(tail == mark);
            assert(tail[0] == mark[0] && tail[1] == mark[1] && tail[2] == mark[2] && tail[3]
                == mark[3] && tail[4] == mark[4]);
        }
        if buf[n - 5] == 48 && buf[n - 4] == 13 && buf[n - 3] == 10 && buf[n - 2] == 13 && buf[n - 1]
            == 10 {
            assert(tail =~= mark);
        }
    }
}

/// A body of known length is there once that many bytes were read, and until then the rest
/// of them is wanted.
pub proof fn law_body_is_read_to_its_length(r: ByteReaderView, n: usize, data: Seq<u8>)
    requires
        r.phase == Phase::Body(n),
        0 < data.len() <= n,
    ensures
        wanted_in(r.phase) == n,
        after_read(r, data) matches Ok(next) && next.buf == r.buf + data && (if data.len() == n {
            next.phase == Phase::Done
        } else {
            next.phase == Phase::Body((n - data.len()) as usize)
        }),
{
}

/// The length of a body is that of the first header named `Content-Length`, up to case.
pub proof fn law_length_is_the_one_given(
    before: Seq<Seq<char>>,
    name: Seq<char>,
    n: usize,
    after: Seq<Seq<char>>,
)
    requires
        !name.contains(':'),
        text::same_ignoring_ascii_case(unicode::trim(name), "content-length"@),
        forall|i: int|
            0 <= i < before.len() ==> crate::proxy::rewrite::header_value(
                #[trigger] before[i],
                "content-length"@,
            ) is None,
    ensures
        declared_length(
            before + seq![name + seq![':'] + (seq![' '] + numbers::decimal(n as nat))] + after,
        ) == Some(n as nat),
        declared_length(before) is None,
    decreases before.len(),
{
    let digits = numbers::decimal(n as nat);
    let value = seq![' '] + digits;
    let line = name + seq![':'] + value;
    let lines = before + seq![line] + after;
    if before.len() == 0 {
        crate::proxy::rewrite::law_header_is_known_by_its_name(name, value, "content-length"@);
        numbers::lemma_decimal_reads_back(n as nat);
        numbers::law_number_reads_back(n as nat, usize::MAX as nat);
        assert(numbers::is_digit(digits[0]) && numbers::is_digit(digits[digits.len() - 1]));
        let none = Seq::<char>::empty();
        unicode::law_trim_ignores_outer_space(seq![' '], digits, none);
        assert(seq![' '] + digits + none =~= value);
        assert(lines[0] == line);
    } else {
        let rest = before.skip(1);
        assert forall|i: int| 0 <= i < rest.len() implies crate::proxy::rewrite::header_value(
            #[trigger] rest[i],
            "content-length"@,
        ) is None by {
            assert(rest[i] == before[i + 1]);
        }
        law_length_is_the_one_given(rest, name, n, after);
        assert(crate::proxy::rewrite::header_value(before[0], "content-length"@) is None);
        assert(lines[0] == before[0]);
        assert(lines.skip(1) =~= rest + seq![line] + after);
    }
}

/// A body follows in chunks where the head says so, and else with the length that the head
/// gives, if it gives any.
pub proof fn law_head_says_how_the_body_comes(head: Seq<char>)
    ensures
        body_phase(head) == Phase::Chunks <==> text::contains(
            unicode::lowered(head),
            "transfer-encoding: chunked"@,
        ),
        body_phase(head) != Phase::Chunks ==> (match declared_length(unicode::lines(head)) {
            Some(n) => n == wanted_in(body_phase(head)) as nat || n > usize::MAX,
            None => body_phase(head) == Phase::Done,
        }),
        body_phase(head) != Phase::Head,
{
}

/// A client that closes its side within a request has sent what came until then; one that
/// closes it before has sent none.
pub proof fn law_half_a_request_is_taken(r: ByteReaderView)
    ensures
        r.phase is Chunks || r.phase is Body ==> after_read(r, Seq::empty()) == Ok::<
            ByteReaderView,
            Seq<char>,
        >(ByteReaderView { buf: r.buf, phase: Phase::Done }),
        r.phase == Phase::Head ==> (after_read(r, Seq::empty()) is Err <==> r.buf.len() == 0),
{
    assert(r.buf + Seq::<u8>::empty() =~= r.buf);
}

} // verus!
