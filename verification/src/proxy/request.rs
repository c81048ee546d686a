//! Reading one HTTP/1.1 request off a connection, a piece at a time.

use vstd::prelude::*;
use vstd::utf8::*;

use super::error::ProxyError;
use crate::bytes;
use crate::numbers;
use crate::text;
use crate::unicode;

verus! {

// ---------------------------------------------------------------------------
// Marks in the byte stream
// ---------------------------------------------------------------------------

/// The bytes that end the headers: two line breaks.
pub open spec fn head_mark() -> Seq<u8> {
    seq![13u8, 10u8, 13u8, 10u8]
}

/// The bytes that end a chunked body: the empty chunk.
pub open spec fn chunk_mark() -> Seq<u8> {
    seq![48u8, 13u8, 10u8, 13u8, 10u8]
}

/// The index just past the first `head_mark`.
pub open spec fn header_end(buf: Seq<u8>) -> Option<int> {
    match bytes::find_bytes(buf, head_mark(), 0) {
        Some(i) => Some(i + 4),
        None => None,
    }
}

/// The index just past the first `chunk_mark` from `start` on.
pub open spec fn chunks_end(buf: Seq<u8>, start: int) -> Option<int> {
    match bytes::find_bytes(buf, chunk_mark(), start) {
        Some(i) => Some(i + 5),
        None => None,
    }
}

/// The index of the first byte after the headers.
pub fn find_header_end(buf: &[u8]) -> (r: Option<usize>)
    ensures
        match r {
            Some(e) => header_end(buf@) == Some(e as int) && 4 <= e <= buf@.len(),
            None => header_end(buf@) is None,
        },
{
    let mut mark: Vec<u8> = Vec::new();
    mark.push(13);
    mark.push(10);
    mark.push(13);
    mark.push(10);
    proof {
        assert(mark@ =~= head_mark());
    }
    if buf.len() < 4 {
        proof {
            bytes::lemma_find_none(buf@, head_mark(), 0);
        }
        return None;
    }
    match bytes::find(buf, mark.as_slice(), 0) {
        Some(i) => Some(i + 4),
        None => None,
    }
}

/// The index just past the empty chunk that ends a chunked body, which is looked
/// for from `start` on.
pub fn find_terminator(buf: &[u8], start: usize) -> (r: Option<usize>)
    ensures
        match r {
            Some(e) => chunks_end(buf@, start as int) == Some(e as int) && start + 5 <= e
                <= buf@.len(),
            None => chunks_end(buf@, start as int) is None,
        },
{
    let mut mark: Vec<u8> = Vec::new();
    mark.push(48);
    mark.push(13);
    mark.push(10);
    mark.push(13);
    mark.push(10);
    proof {
        assert(mark@ =~= chunk_mark());
    }
    if buf.len() < 5 {
        proof {
            bytes::lemma_find_none(buf@, chunk_mark(), start as int);
        }
        return None;
    }
    match bytes::find(buf, mark.as_slice(), start) {
        Some(i) => Some(i + 5),
        None => None,
    }
}

// ---------------------------------------------------------------------------
// What the headers say of the body
// ---------------------------------------------------------------------------

/// How long the body is.
#[derive(Clone, Copy, Debug, PartialEq, Eq, Structural)]
pub enum Framing {
    /// It is sent in chunks and ends with the empty chunk.
    Chunked,
    /// It has this many bytes.
    Length(usize),
    /// There is none.
    NoBody,
}

/// The text of a header value; of bytes that are not UTF-8, the empty text.
pub open spec fn value_text(value: Seq<u8>) -> Seq<char> {
    if valid_utf8(value) {
        decode_utf8(value)
    } else {
        Seq::empty()
    }
}

/// The length that the last `Content-Length` header gives, if it gives one.
pub open spec fn declared_length(headers: Seq<(Seq<char>, Seq<u8>)>) -> Option<nat>
    decreases headers.len(),
{
    if headers.len() == 0 {
        None
    } else if text::same_ignoring_ascii_case(headers.last().0, "content-length"@) {
        numbers::parsed(unicode::trim(value_text(headers.last().1)), usize::MAX as nat)
    } else {
        declared_length(headers.drop_last())
    }
}

/// Whether a header is a `Transfer-Encoding` that names `chunked`.
pub open spec fn names_chunked(header: (Seq<char>, Seq<u8>)) -> bool {
    text::same_ignoring_ascii_case(header.0, "transfer-encoding"@) && text::contains(
        unicode::lowered(value_text(header.1)),
        "chunked"@,
    )
}

/// What the headers say of the body.
pub open spec fn framing_of(headers: Seq<(Seq<char>, Seq<u8>)>) -> Framing {
    if exists|i: int| 0 <= i < headers.len() && names_chunked(#[trigger] headers[i]) {
        Framing::Chunked
    } else {
        match declared_length(headers) {
            Some(n) => Framing::Length(n as usize),
            None => Framing::NoBody,
        }
    }
}

/// The names and values of a run of headers.
pub open spec fn header_views(headers: Seq<(String, Vec<u8>)>) -> Seq<(Seq<char>, Seq<u8>)> {
    Seq::new(headers.len(), |i: int| (headers[i].0@, headers[i].1@))
}

fn text_of_value(value: &[u8]) -> (s: String)
    ensures
        s@ == value_text(value@),
{
    match unicode::decode_strict(value) {
        Some(s) => s,
        None => {
            let s = String::new();
            proof {
                assert(s@ =~= Seq::empty());
            }
            s
        },
    }
}

/// What the headers say of the body.
pub fn framing(headers: &Vec<(String, Vec<u8>)>) -> (f: Framing)
    ensures
        f == framing_of(header_views(headers@)),
{
    let ghost all = header_views(headers@);
    let length_name = text::chars_of("content-length");
    let encoding_name = text::chars_of("transfer-encoding");
    let chunked = text::chars_of("chunked");
    let mut length: Option<u64> = None;
    let mut is_chunked = false;
    let mut i: usize = 0;
    while i < headers.len()
        invariant
            all == header_views(headers@),
            length_name@ == "content-length"@,
            encoding_name@ == "transfer-encoding"@,
            chunked@ == "chunked"@,
            i <= headers@.len(),
            match length {
                Some(n) => declared_length(all.take(i as int)) == Some(n as nat) && n
                    <= usize::MAX,
                None => declared_length(all.take(i as int)) is None,
            },
            is_chunked == exists|j: int| 0 <= j < i && names_chunked(#[trigger] all[j]),
        decreases headers@.len() - i,
    {
        proof {
            assert(all[i as int] == (headers@[i as int].0@, headers@[i as int].1@));
            assert(all.take(i + 1).drop_last() =~= all.take(i as int));
            assert(all.take(i + 1).last() == all[i as int]);
        }
        let name = text::chars_of(headers[i].0.as_str());
        if text::eq_ignore_ascii_case(name.as_slice(), length_name.as_slice()) {
            let value = text_of_value(headers[i].1.as_slice());
            let value = text::chars_of(value.as_str());
            let value = unicode::trim_chars(value.as_slice());
            length = numbers::parse_number(value.as_slice(), usize::MAX as u64);
        }
        if text::eq_ignore_ascii_case(name.as_slice(), encoding_name.as_slice()) {
            let value = text_of_value(headers[i].1.as_slice());
            let low = unicode::lowercase(value.as_str());
            let low = text::chars_of(low.as_str());
            if text::has(low.as_slice(), chunked.as_slice()) {
                is_chunked = true;
            }
        }
        i = i + 1;
    }
    proof {
        assert(all.take(i as int) =~= all);
    }
    if is_chunked {
        Framing::Chunked
    } else {
        match length {
            Some(n) => Framing::Length(n as usize),
            None => Framing::NoBody,
        }
    }
}

// ---------------------------------------------------------------------------
// Parsing the headers
// ---------------------------------------------------------------------------

/// What `httparse::Request::parse` makes of a buffer, with room for 64 headers:
/// the names and values of the headers, `None` where they are not complete, or the
/// text of the error.
pub uninterp spec fn parsed_head(buf: Seq<u8>) -> Result<
    Option<Seq<(Seq<char>, Seq<u8>)>>,
    Seq<char>,
>;

/// The view of a parse result.
pub open spec fn head_view(r: Result<Option<Vec<(String, Vec<u8>)>>, String>) -> Result<
    Option<Seq<(Seq<char>, Seq<u8>)>>,
    Seq<char>,
> {
    match r {
        Ok(Some(headers)) => Ok(Some(header_views(headers@))),
        Ok(None) => Ok(None),
        Err(e) => Err(e@),
    }
}

/// `httparse::Request::parse` on `buf`, with room for 64 headers. The result
/// depends on the bytes alone.
#[verifier::external_body]
fn parse_head(buf: &[u8]) -> (r: Result<Option<Vec<(String, Vec<u8>)>>, String>)
    ensures
        head_view(r) == parsed_head(buf@),
{
    let mut headers = [httparse::EMPTY_HEADER; 64];
    let mut req = httparse::Request::new(&mut headers);
    match req.parse(buf) {
        Ok(httparse::Status::Complete(_)) => Ok(
            Some(req.headers.iter().map(|h| (h.name.to_owned(), h.value.to_vec())).collect()),
        ),
        Ok(httparse::Status::Partial) => Ok(None),
        Err(e) => Err(e.to_string()),
    }
}

// ---------------------------------------------------------------------------
// The reader
// ---------------------------------------------------------------------------

/// What a reader waits for.
#[derive(Clone, Copy, Debug, PartialEq, Eq, Structural)]
pub enum Phase {
    /// The end of the headers.
    Head,
    /// The empty chunk, from this index on.
    Chunks(usize),
    /// This many more bytes of the body.
    Body(usize),
    /// Nothing: the request is complete.
    Done,
}

/// The bytes of a request so far, and what is still to come.
pub struct RequestReader {
    /// What has been read.
    pub buf: Vec<u8>,
    /// What is waited for.
    pub phase: Phase,
}

/// A reader's bytes and phase.
pub struct ReaderView {
    /// What has been read.
    pub buf: Seq<u8>,
    /// What is waited for.
    pub phase: Phase,
}

impl View for RequestReader {
    type V = ReaderView;

    open spec fn view(&self) -> ReaderView {
        ReaderView { buf: self.buf@, phase: self.phase }
    }
}

/// How much the next read may bring.
pub open spec fn wanted_in(phase: Phase) -> usize {
    match phase {
        Phase::Head => 4096,
        Phase::Chunks(_) => 4096,
        Phase::Body(n) => n,
        Phase::Done => 0,
    }
}

/// The reader once it has looked for the empty chunk from `start` on: what follows
/// it is dropped.
pub open spec fn scanned(buf: Seq<u8>, start: int) -> ReaderView {
    match chunks_end(buf, start) {
        Some(e) => ReaderView { buf: buf.take(e), phase: Phase::Done },
        None => ReaderView { buf, phase: Phase::Chunks(start as usize) },
    }
}

/// The reader once the headers, which end at `end`, have been parsed.
pub open spec fn after_head(
    buf: Seq<u8>,
    end: int,
    head: Result<Option<Seq<(Seq<char>, Seq<u8>)>>, Seq<char>>,
) -> Result<ReaderView, Seq<char>> {
    match head {
        Err(e) => Err("httparse error: "@ + e),
        Ok(None) => Err("incomplete headers after read"@),
        Ok(Some(headers)) => match framing_of(headers) {
            Framing::Chunked => Ok(scanned(buf, end)),
            Framing::Length(n) => if buf.len() - end < n {
                Ok(ReaderView { buf, phase: Phase::Body((n - (buf.len() - end)) as usize) })
            } else {
                Ok(ReaderView { buf, phase: Phase::Done })
            },
            Framing::NoBody => Ok(ReaderView { buf, phase: Phase::Done }),
        },
    }
}

/// The reader once a read has brought `data`; no bytes mean that the peer has
/// closed the connection.
pub open spec fn after_read(r: ReaderView, data: Seq<u8>) -> Result<ReaderView, Seq<char>> {
    let buf = r.buf + data;
    match r.phase {
        Phase::Head => if data.len() == 0 {
            if r.buf.len() == 0 {
                Err("empty request from client"@)
            } else {
                Err("connection closed before headers complete"@)
            }
        } else {
            match header_end(buf) {
                None => Ok(ReaderView { buf, phase: Phase::Head }),
                Some(end) => after_head(buf, end, parsed_head(buf)),
            }
        },
        Phase::Chunks(start) => if data.len() == 0 {
            Ok(ReaderView { buf, phase: Phase::Done })
        } else {
            Ok(scanned(buf, start as int))
        },
        Phase::Body(n) => if data.len() == 0 || data.len() >= n {
            Ok(ReaderView { buf, phase: Phase::Done })
        } else {
            Ok(ReaderView { buf, phase: Phase::Body((n - data.len()) as usize) })
        },
        Phase::Done => Ok(r),
    }
}

impl RequestReader {
    /// A reader that has read nothing.
    pub fn new() -> (r: RequestReader)
        ensures
            r@ == (ReaderView { buf: Seq::empty(), phase: Phase::Head }),
    {
        let r = RequestReader { buf: Vec::new(), phase: Phase::Head };
        proof {
            assert(r@.buf =~= Seq::empty());
        }
        r
    }

    /// Whether the request is complete.
    pub fn is_done(&self) -> (r: bool)
        ensures
            r == (self.phase == Phase::Done),
    {
        self.phase == Phase::Done
    }

    /// How many bytes the next read may bring at most.
    pub fn wanted(&self) -> (n: usize)
        ensures
            n == wanted_in(self.phase),
    {
        match self.phase {
            Phase::Head => 4096,
            Phase::Chunks(_) => 4096,
            Phase::Body(n) => n,
            Phase::Done => 0,
        }
    }

    /// Looks for the empty chunk from `start` on.
    pub fn read_chunked_body(&mut self, start: usize)
        ensures
            final(self)@ == scanned(old(self).buf@, start as int),
    {
        match find_terminator(self.buf.as_slice(), start) {
            Some(e) => {
                self.buf.truncate(e);
                proof {
                    assert(self.buf@ =~= old(self).buf@.take(e as int));
                }
                self.phase = Phase::Done;
            },
            None => {
                self.phase = Phase::Chunks(start);
            },
        }
    }

    /// Goes on from headers that end at `end` and were parsed into `head`.
    pub fn begin_body(
        &mut self,
        end: usize,
        head: Result<Option<Vec<(String, Vec<u8>)>>, String>,
    ) -> (r: Result<(), ProxyError>)
        requires
            end <= old(self).buf@.len(),
        ensures
            match (r, after_head(old(self).buf@, end as int, head_view(head))) {
                (Ok(_), Ok(next)) => final(self)@ == next,
                (Err(ProxyError::Io(m)), Err(e)) => m@ == e && final(self)@ == old(self)@,
                _ => false,
            },
    {
        let headers = match head {
            Ok(Some(headers)) => headers,
            Ok(None) => {
                return Err(ProxyError::Io("incomplete headers after read".to_owned()));
            },
            Err(e) => {
                let mut m = "httparse error: ".to_owned();
                m.append(e.as_str());
                return Err(ProxyError::Io(m));
            },
        };
        match framing(&headers) {
            Framing::Chunked => {
                self.read_chunked_body(end);
            },
            Framing::Length(n) => {
                let have: usize = self.buf.len() - end;
                if have < n {
                    self.phase = Phase::Body(n - have);
                } else {
                    self.phase = Phase::Done;
                }
            },
            Framing::NoBody => {
                self.phase = Phase::Done;
            },
        }
        Ok(())
    }

    /// Takes in what one read brought; no bytes mean that the peer has closed the
    /// connection.
    pub fn take(&mut self, data: &[u8]) -> (r: Result<(), ProxyError>)
        requires
            data@.len() <= wanted_in(old(self).phase),
        ensures
            match (r, after_read(old(self)@, data@)) {
                (Ok(_), Ok(next)) => final(self)@ == next,
                (Err(ProxyError::Io(m)), Err(e)) => m@ == e,
                _ => false,
            },
    {
        let ghost before = self@;
        match self.phase {
            Phase::Head => {
                if data.len() == 0 {
                    if self.buf.len() == 0 {
                        return Err(ProxyError::Io("empty request from client".to_owned()));
                    }
                    return Err(
                        ProxyError::Io("connection closed before headers complete".to_owned()),
                    );
                }
                self.buf.extend_from_slice(data);
                proof {
                    assert(self.buf@ =~= before.buf + data@);
                }
                match find_header_end(self.buf.as_slice()) {
                    None => Ok(()),
                    Some(end) => {
                        let head = parse_head(self.buf.as_slice());
                        self.begin_body(end, head)
                    },
                }
            },
            Phase::Chunks(start) => {
                self.buf.extend_from_slice(data);
                proof {
                    assert(self.buf@ =~= before.buf + data@);
                }
                if data.len() == 0 {
                    self.phase = Phase::Done;
                } else {
                    self.read_chunked_body(start);
                }
                Ok(())
            },
            Phase::Body(n) => {
                self.buf.extend_from_slice(data);
                proof {
                    assert(self.buf@ =~= before.buf + data@);
                }
                if data.len() == 0 || data.len() == n {
                    self.phase = Phase::Done;
                } else {
                    self.phase = Phase::Body(n - data.len());
                }
                Ok(())
            },
            Phase::Done => Ok(()),
        }
    }
}

/// What a reader makes of a peer that sends `stream` and then closes, where each
/// read brings as much as it may: the request, or the text of the error.
pub open spec fn read_all(r: ReaderView, stream: Seq<u8>) -> Result<Seq<u8>, Seq<char>>
    decreases stream.len(),
{
    if r.phase == Phase::Done {
        Ok(r.buf)
    } else {
        let n = if wanted_in(r.phase) < stream.len() {
            wanted_in(r.phase) as int
        } else {
            stream.len() as int
        };
        match after_read(r, stream.take(n)) {
            Ok(next) => if n == 0 {
                Ok(next.buf)
            } else {
                read_all(next, stream.skip(n))
            },
            Err(e) => Err(e),
        }
    }
}

/// The request of a peer that sends `stream` and then closes.
pub fn read_http_request(stream: &[u8]) -> (r: Result<Vec<u8>, ProxyError>)
    ensures
        match (
            r,
            read_all(ReaderView { buf: Seq::<u8>::empty(), phase: Phase::Head }, stream@),
        ) {
            (Ok(out), Ok(want)) => out@ == want,
            (Err(ProxyError::Io(m)), Err(e)) => m@ == e,
            _ => false,
        },
{
    let mut reader = RequestReader::new();
    let mut pos: usize = 0;
    let ghost start = reader@;
    proof {
        assert(stream@.skip(0) =~= stream@);
    }
    while !reader.is_done()
        invariant
            pos <= stream@.len(),
            start == (ReaderView { buf: Seq::<u8>::empty(), phase: Phase::Head }),
            read_all(start, stream@) == read_all(reader@, stream@.skip(pos as int)),
        decreases stream@.len() - pos,
    {
        let rest: usize = stream.len() - pos;
        let most: usize = reader.wanted();
        let n: usize = if most < rest {
            most
        } else {
            rest
        };
        let data = vstd::slice::slice_subrange(stream, pos, pos + n);
        proof {
            let tail = stream@.skip(pos as int);
            assert(data@ =~= tail.take(n as int));
            assert(tail.skip(n as int) =~= stream@.skip(pos + n));
        }
        match reader.take(data) {
            Ok(()) => {},
            Err(e) => {
                return Err(e);
            },
        }
        if n == 0 {
            return Ok(reader.buf);
        }
        pos = pos + n;
    }
    Ok(reader.buf)
}

// ---------------------------------------------------------------------------
// Laws
// ---------------------------------------------------------------------------

proof fn lemma_mark_stays(a: Seq<u8>, b: Seq<u8>)
    requires
        a.is_prefix_of(b),
        header_end(a) is Some,
    ensures
        header_end(b) == header_end(a),
{
    let p = head_mark();
    let i = header_end(a)->0 - 4;
    assert(bytes::first_at(a, p, 0, i));
    assert forall|j: int| 0 <= j <= i implies bytes::stands_at(b, p, j) == bytes::stands_at(
        a,
        p,
        j,
    ) by {
        assert(a.subrange(j, j + p.len()) =~= b.subrange(j, j + p.len()));
    }
    assert(bytes::first_at(b, p, 0, i));
    let k = header_end(b)->0 - 4;
    bytes::lemma_first_at_unique(b, p, 0, i, k);
}

proof fn lemma_mark_stays_before(a: Seq<u8>, b: Seq<u8>)
    requires
        a.is_prefix_of(b),
        header_end(b) is Some,
        header_end(b)->0 <= a.len(),
    ensures
        header_end(a) == header_end(b),
{
    let p = head_mark();
    let i = header_end(b)->0 - 4;
    assert(bytes::first_at(b, p, 0, i));
    assert forall|j: int| 0 <= j <= i implies bytes::stands_at(b, p, j) == bytes::stands_at(
        a,
        p,
        j,
    ) by {
        assert(a.subrange(j, j + p.len()) =~= b.subrange(j, j + p.len()));
    }
    assert(bytes::first_at(a, p, 0, i));
    let k = header_end(a)->0 - 4;
    bytes::lemma_first_at_unique(a, p, 0, i, k);
}

/// Whether a reader past its headers has them in its bytes.
pub open spec fn reader_ok(r: ReaderView) -> bool {
    match r.phase {
        Phase::Head => true,
        Phase::Chunks(start) => header_end(r.buf) is Some && header_end(r.buf)->0 <= start
            <= r.buf.len(),
        Phase::Body(_) => header_end(r.buf) is Some,
        Phase::Done => header_end(r.buf) is Some,
    }
}

proof fn lemma_scanned_ok(buf: Seq<u8>, start: int)
    requires
        header_end(buf) is Some,
        header_end(buf)->0 <= start <= buf.len() <= usize::MAX,
    ensures
        reader_ok(scanned(buf, start)),
        scanned(buf, start).buf.is_prefix_of(buf),
        scanned(buf, start).phase != Phase::Done ==> scanned(buf, start).buf == buf,
{
    match chunks_end(buf, start) {
        Some(e) => {
            assert(bytes::first_at(buf, chunk_mark(), start, e - 5));
            lemma_mark_stays_before(buf.take(e), buf);
        },
        None => {},
    }
}

/// A read keeps a reader sound, and never changes bytes that it has: they are what
/// was read before and then what the read brought, or, where a chunked body ends,
/// a part of that from the front.
pub proof fn law_read_keeps_bytes(r: ReaderView, data: Seq<u8>)
    requires
        reader_ok(r),
        r.buf.len() + data.len() <= usize::MAX,
        after_read(r, data) is Ok,
    ensures
        ({
            let next = after_read(r, data)->Ok_0;
            &&& reader_ok(next)
            &&& next.buf.is_prefix_of(r.buf + data)
            &&& next.phase != Phase::Done ==> next.buf == r.buf + data
        }),
{
    let buf = r.buf + data;
    match r.phase {
        Phase::Head => {
            if header_end(buf) is Some {
                let end = header_end(buf)->0;
                assert(bytes::first_at(buf, head_mark(), 0, end - 4));
                lemma_scanned_ok(buf, end);
            }
        },
        Phase::Chunks(start) => {
            lemma_mark_stays(r.buf, buf);
            lemma_scanned_ok(buf, start as int);
        },
        Phase::Body(_) => {
            lemma_mark_stays(r.buf, buf);
        },
        Phase::Done => {},
    }
}

proof fn lemma_part_of_whole(had: Seq<u8>, stream: Seq<u8>, n: int, part: Seq<u8>)
    requires
        0 <= n <= stream.len(),
        part.is_prefix_of(had + stream.take(n)),
    ensures
        part.is_prefix_of(had + stream),
        had + stream.take(n) + stream.skip(n) == had + stream,
{
    let so_far = had + stream.take(n);
    let whole = had + stream;
    let k = part.len() as int;
    assert(so_far =~= whole.take(so_far.len() as int));
    assert(whole.subrange(0, k) =~= so_far.subrange(0, k));
    assert(so_far + stream.skip(n) =~= whole);
}

/// The request that is read is a part, from the front, of what the peer sent, and
/// holds all of its headers.
#[verifier::spinoff_prover]
#[verifier::rlimit(40)]
pub proof fn law_request_is_what_was_sent(r: ReaderView, stream: Seq<u8>)
    requires
        reader_ok(r),
        r.buf.len() + stream.len() <= usize::MAX,
        read_all(r, stream) is Ok,
    ensures
        read_all(r, stream)->Ok_0.is_prefix_of(r.buf + stream),
        header_end(read_all(r, stream)->Ok_0) is Some,
        header_end(read_all(r, stream)->Ok_0) == header_end(r.buf + stream),
    decreases stream.len(),
{
    let whole = r.buf + stream;
    let out = read_all(r, stream)->Ok_0;
    if r.phase == Phase::Done {
        lemma_mark_stays(out, whole);
    } else {
        let n = if wanted_in(r.phase) < stream.len() {
            wanted_in(r.phase) as int
        } else {
            stream.len() as int
        };
        let data = stream.take(n);
        let next = after_read(r, data)->Ok_0;
        law_read_keeps_bytes(r, data);
        lemma_part_of_whole(r.buf, stream, n, next.buf);
        if n == 0 {
            assert(r.phase != Phase::Head);
            lemma_mark_stays(out, whole);
        } else if next.phase == Phase::Done {
            assert(read_all(next, stream.skip(n)) == Ok::<Seq<u8>, Seq<char>>(next.buf));
            assert(out == next.buf);
            lemma_mark_stays(out, whole);
        } else {
            law_request_is_what_was_sent(next, stream.skip(n));
        }
    }
}

/// Whether `whole` is one complete request and nothing else. Its headers end, and every
/// part of it from the front that holds them all is parsed into `headers`. What these
/// say of the body holds of it: there is none; or it has that many bytes; or it is in
/// chunks, and the first empty chunk ends it.
pub open spec fn is_request(whole: Seq<u8>, headers: Seq<(Seq<char>, Seq<u8>)>) -> bool {
    &&& whole.len() <= usize::MAX
    &&& header_end(whole) is Some
    &&& forall|part: Seq<u8>| #[trigger]
        part.is_prefix_of(whole) && header_end(part) is Some ==> parsed_head(part) == Ok::<
            Option<Seq<(Seq<char>, Seq<u8>)>>,
            Seq<char>,
        >(Some(headers))
    &&& match framing_of(headers) {
        Framing::NoBody => whole.len() == header_end(whole)->0,
        Framing::Length(n) => whole.len() == header_end(whole)->0 + n,
        Framing::Chunked => chunks_end(whole, header_end(whole)->0) == Some(whole.len() as int),
    }
}

spec fn on_track(r: ReaderView, whole: Seq<u8>, headers: Seq<(Seq<char>, Seq<u8>)>) -> bool {
    let end = header_end(whole)->0;
    &&& r.buf.is_prefix_of(whole)
    &&& match r.phase {
        Phase::Head => header_end(r.buf) is None,
        Phase::Chunks(start) => framing_of(headers) == Framing::Chunked && start == end
            && header_end(r.buf) is Some && r.buf.len() < whole.len(),
        Phase::Body(n) => framing_of(headers) is Length && n == whole.len() - r.buf.len() && n > 0
            && header_end(r.buf) is Some,
        Phase::Done => r.buf == whole,
    }
}

proof fn lemma_scan_part(part: Seq<u8>, whole: Seq<u8>, start: int)
    requires
        part.is_prefix_of(whole),
        0 <= start <= part.len(),
        whole.len() <= usize::MAX,
        chunks_end(whole, start) == Some(whole.len() as int),
    ensures
        part.len() < whole.len() ==> scanned(part, start) == (ReaderView {
            buf: part,
            phase: Phase::Chunks(start as usize),
        }),
        part.len() == whole.len() ==> scanned(part, start) == (ReaderView {
            buf: whole,
            phase: Phase::Done,
        }),
{
    let p = chunk_mark();
    let last = whole.len() - 5;
    assert(bytes::first_at(whole, p, start, last));
    if part.len() == whole.len() {
        assert(part =~= whole);
        assert(whole.take(whole.len() as int) =~= whole);
    } else {
        bytes::lemma_find_none(part, p, start);
        assert forall|j: int| start <= j implies !bytes::stands_at(part, p, j) by {
            if bytes::stands_at(part, p, j) {
                assert(part.subrange(j, j + 5) =~= whole.subrange(j, j + 5));
                assert(bytes::stands_at(whole, p, j));
                assert(j < last);
            }
        }
    }
}

proof fn lemma_step_on_track(
    r: ReaderView,
    data: Seq<u8>,
    whole: Seq<u8>,
    headers: Seq<(Seq<char>, Seq<u8>)>,
)
    requires
        is_request(whole, headers),
        on_track(r, whole, headers),
        r.phase != Phase::Done,
        data.len() > 0,
        (r.buf + data).is_prefix_of(whole),
    ensures
        after_read(r, data) is Ok,
        on_track(after_read(r, data)->Ok_0, whole, headers),
        after_read(r, data)->Ok_0.buf == r.buf + data,
        after_read(r, data)->Ok_0.phase == Phase::Done <==> r.buf + data == whole,
{
    let buf = r.buf + data;
    let end = header_end(whole)->0;
    assert(bytes::first_at(whole, head_mark(), 0, end - 4));
    assert(buf.len() <= whole.len());
    if buf.len() == whole.len() {
        assert(buf =~= whole);
    }
    match r.phase {
        Phase::Head => {
            if header_end(buf) is Some {
                lemma_mark_stays(buf, whole);
                assert(bytes::first_at(buf, head_mark(), 0, end - 4));
                assert(parsed_head(buf) == Ok::<
                    Option<Seq<(Seq<char>, Seq<u8>)>>,
                    Seq<char>,
                >(Some(headers)));
                match framing_of(headers) {
                    Framing::Chunked => {
                        lemma_scan_part(buf, whole, end);
                    },
                    _ => {},
                }
            }
        },
        Phase::Chunks(start) => {
            lemma_mark_stays(r.buf, buf);
            lemma_mark_stays(buf, whole);
            assert(bytes::first_at(buf, head_mark(), 0, end - 4));
            lemma_scan_part(buf, whole, end);
        },
        Phase::Body(n) => {
            lemma_mark_stays(r.buf, buf);
        },
        Phase::Done => {},
    }
}

/// All bytes of a run of pieces.
pub open spec fn all_of(pieces: Seq<Seq<u8>>) -> Seq<u8>
    decreases pieces.len(),
{
    if pieces.len() == 0 {
        Seq::empty()
    } else {
        all_of(pieces.drop_last()) + pieces.last()
    }
}

/// The reader once reads have brought those pieces.
pub open spec fn after_reads(r: ReaderView, pieces: Seq<Seq<u8>>) -> Result<ReaderView, Seq<char>>
    decreases pieces.len(),
{
    if pieces.len() == 0 {
        Ok(r)
    } else {
        match after_reads(r, pieces.drop_last()) {
            Ok(next) => after_read(next, pieces.last()),
            Err(e) => Err(e),
        }
    }
}

/// A reader that has read nothing.
pub open spec fn at_start() -> ReaderView {
    ReaderView { buf: Seq::empty(), phase: Phase::Head }
}

proof fn lemma_reads_on_track(
    pieces: Seq<Seq<u8>>,
    whole: Seq<u8>,
    headers: Seq<(Seq<char>, Seq<u8>)>,
)
    requires
        is_request(whole, headers),
        forall|k: int| 0 <= k < pieces.len() ==> (#[trigger] pieces[k]).len() > 0,
        all_of(pieces).is_prefix_of(whole),
    ensures
        after_reads(at_start(), pieces) is Ok,
        on_track(after_reads(at_start(), pieces)->Ok_0, whole, headers),
        after_reads(at_start(), pieces)->Ok_0.buf == all_of(pieces),
        after_reads(at_start(), pieces)->Ok_0.phase == Phase::Done <==> all_of(pieces) == whole,
    decreases pieces.len(),
{
    let end = header_end(whole)->0;
    assert(bytes::first_at(whole, head_mark(), 0, end - 4));
    if pieces.len() == 0 {
        let e = Seq::<u8>::empty();
        bytes::lemma_find_none(e, head_mark(), 0);
        assert(header_end(e) is None);
        assert(e.is_prefix_of(whole));
    } else {
        let init = pieces.drop_last();
        let last = pieces.last();
        assert(pieces[pieces.len() - 1].len() > 0);
        assert forall|k: int| 0 <= k < init.len() implies (#[trigger] init[k]).len() > 0 by {
            assert(init[k] == pieces[k]);
        }
        let so_far = all_of(init);
        assert(all_of(pieces) =~= whole.take(all_of(pieces).len() as int));
        assert(so_far =~= whole.take(so_far.len() as int)) by {
            assert forall|k: int| 0 <= k < so_far.len() implies so_far[k] == whole[k] by {
                assert(all_of(pieces)[k] == so_far[k]);
            }
        }
        lemma_reads_on_track(init, whole, headers);
        assert(so_far.len() < whole.len());
        lemma_step_on_track(after_reads(at_start(), init)->Ok_0, last, whole, headers);
    }
}

/// However a request is cut into reads, also inside the end of its headers, its body or
/// its last chunk, the reader is done when all of it was read, and not before, and has
/// the request, byte for byte.
pub proof fn law_cuts_do_not_matter(
    pieces: Seq<Seq<u8>>,
    whole: Seq<u8>,
    headers: Seq<(Seq<char>, Seq<u8>)>,
)
    requires
        is_request(whole, headers),
        forall|k: int| 0 <= k < pieces.len() ==> (#[trigger] pieces[k]).len() > 0,
        all_of(pieces) == whole,
    ensures
        after_reads(at_start(), pieces) == Ok::<ReaderView, Seq<char>>(
            ReaderView { buf: whole, phase: Phase::Done },
        ),
        pieces.len() > 0 && (after_reads(at_start(), pieces.drop_last()) matches Ok(r)
            && r.phase != Phase::Done && r.buf == all_of(pieces.drop_last())),
{
    assert(whole.is_prefix_of(whole));
    lemma_reads_on_track(pieces, whole, headers);
    let end = header_end(whole)->0;
    assert(bytes::first_at(whole, head_mark(), 0, end - 4));
    let init = pieces.drop_last();
    assert(pieces[pieces.len() - 1].len() > 0);
    assert forall|k: int| 0 <= k < init.len() implies (#[trigger] init[k]).len() > 0 by {
        assert(init[k] == pieces[k]);
    }
    assert(all_of(init).is_prefix_of(whole)) by {
        assert(whole.take(all_of(init).len() as int) =~= all_of(init));
    }
    lemma_reads_on_track(init, whole, headers);
    assert(all_of(init).len() < whole.len());
}

proof fn lemma_rest_comes_back(
    r: ReaderView,
    stream: Seq<u8>,
    whole: Seq<u8>,
    headers: Seq<(Seq<char>, Seq<u8>)>,
)
    requires
        is_request(whole, headers),
        on_track(r, whole, headers),
        r.buf + stream == whole,
    ensures
        read_all(r, stream) == Ok::<Seq<u8>, Seq<char>>(whole),
    decreases stream.len(),
{
    if r.phase != Phase::Done {
        let n = if wanted_in(r.phase) < stream.len() {
            wanted_in(r.phase) as int
        } else {
            stream.len() as int
        };
        if stream.len() == 0 {
            assert(r.buf =~= whole);
        }
        assert(n > 0);
        let data = stream.take(n);
        let buf = r.buf + data;
        assert(buf =~= whole.take(buf.len() as int));
        lemma_step_on_track(r, data, whole, headers);
        let next = after_read(r, data)->Ok_0;
        assert(next.buf + stream.skip(n) =~= whole);
        lemma_rest_comes_back(next, stream.skip(n), whole, headers);
    }
}

/// A peer that sends one complete request and then closes is read as that request.
pub proof fn law_whole_request_comes_back(
    whole: Seq<u8>,
    headers: Seq<(Seq<char>, Seq<u8>)>,
)
    requires
        is_request(whole, headers),
    ensures
        read_all(at_start(), whole) == Ok::<Seq<u8>, Seq<char>>(whole),
{
    let e = Seq::<u8>::empty();
    bytes::lemma_find_none(e, head_mark(), 0);
    assert(e.is_prefix_of(whole));
    assert(e + whole =~= whole);
    lemma_rest_comes_back(at_start(), whole, whole, headers);
}

// ---------------------------------------------------------------------------
// Laws on heads and bodies
// ---------------------------------------------------------------------------

/// The head of a request ends behind its first empty line, and the chunks of a body behind
/// the first chunk without content.
pub proof fn law_head_ends_at_empty_line(buf: Seq<u8>, start: int)
    requires
        0 <= start,
    ensures
        header_end(buf) matches Some(e) ==> {
            &&& 4 <= e <= buf.len()
            &&& buf[e - 4] == 13 && buf[e - 3] == 10 && buf[e - 2] == 13 && buf[e - 1] == 10
            &&& forall|j: int|
                0 <= j < e - 4 ==> !(#[trigger] buf[j] == 13 && buf[j + 1] == 10 && buf[j + 2] == 13
                    && buf[j + 3] == 10)
        },
        header_end(buf) is None ==> forall|j: int|
            0 <= j && j + 4 <= buf.len() ==> !(#[trigger] buf[j] == 13 && buf[j + 1] == 10 && buf[j
                + 2] == 13 && buf[j + 3] == 10),
        chunks_end(buf, start) matches Some(e) ==> {
            &&& start + 5 <= e <= buf.len()
            &&& buf[e - 5] == 48 && buf[e - 4] == 13 && buf[e - 3] == 10 && buf[e - 2] == 13 && buf[e
                - 1] == 10
            &&& forall|j: int|
                start <= j < e - 5 ==> !(#[trigger] buf[j] == 48 && buf[j + 1] == 13 && buf[j + 2]
                    == 10 && buf[j + 3] == 13 && buf[j + 4] == 10)
        },
        chunks_end(buf, start) is None ==> forall|j: int|
            start <= j && j + 5 <= buf.len() ==> !(#[trigger] buf[j] == 48 && buf[j + 1] == 13
                && buf[j + 2] == 10 && buf[j + 3] == 13 && buf[j + 4] == 10),
{
    lemma_mark_bytes(buf);
    lemma_chunk_bytes(buf, start);
}

proof fn lemma_mark_bytes(buf: Seq<u8>)
    ensures
        header_end(buf) matches Some(e) ==> {
            &&& 4 <= e <= buf.len()
            &&& buf[e - 4] == 13 && buf[e - 3] == 10 && buf[e - 2] == 13 && buf[e - 1] == 10
            &&& forall|j: int|
                0 <= j < e - 4 ==> !(#[trigger] buf[j] == 13 && buf[j + 1] == 10 && buf[j + 2] == 13
                    && buf[j + 3] == 10)
        },
        header_end(buf) is None ==> forall|j: int|
            0 <= j && j + 4 <= buf.len() ==> !(#[trigger] buf[j] == 13 && buf[j + 1] == 10 && buf[j
                + 2] == 13 && buf[j + 3] == 10),
{
    let p = head_mark();
    bytes::law_first_place_is_found(buf, p, 0);
    assert forall|j: int| 0 <= j && j + 4 <= buf.len() && #[trigger] buf[j] == 13 && buf[j + 1] == 10
        && buf[j + 2] == 13 && buf[j + 3] == 10 implies bytes::stands_at(buf, p, j) by {
        assert(buf.subrange(j, j + 4) =~= p);
    }
    if let Some(i) = bytes::find_bytes(buf, p, 0) {
        assert(buf[i + 0] == p[0] && buf[i + 1] == p[1] && buf[i + 2] == p[2] && buf[i + 3] == p[3]);
    }
}

proof fn lemma_chunk_bytes(buf: Seq<u8>, start: int)
    requires
        0 <= start,
    ensures
        chunks_end(buf, start) matches Some(e) ==> {
            &&& start + 5 <= e <= buf.len()
            &&& buf[e - 5] == 48 && buf[e - 4] == 13 && buf[e - 3] == 10 && buf[e - 2] == 13 && buf[e
                - 1] == 10
            &&& forall|j: int|
                start <= j < e - 5 ==> !(#[trigger] buf[j] == 48 && buf[j + 1] == 13 && buf[j + 2]
                    == 10 && buf[j + 3] == 13 && buf[j + 4] == 10)
        },
        chunks_end(buf, start) is None ==> forall|j: int|
            start <= j && j + 5 <= buf.len() ==> !(#[trigger] buf[j] == 48 && buf[j + 1] == 13
                && buf[j + 2] == 10 && buf[j + 3] == 13 && buf[j + 4] == 10),
{
    let p = chunk_mark();
    bytes::law_first_place_is_found(buf, p, start);
    assert forall|j: int|
        start <= j && j + 5 <= buf.len() && #[trigger] buf[j] == 48 && buf[j + 1] == 13 && buf[j + 2]
            == 10 && buf[j + 3] == 13 && buf[j + 4] == 10 implies bytes::stands_at(buf, p, j) by {
        assert(buf.subrange(j, j + 5) =~= p);
    }
    if let Some(i) = bytes::find_bytes(buf, p, start) {
        assert(buf[i + 0] == p[0] && buf[i + 1] == p[1] && buf[i + 2] == p[2] && buf[i + 3] == p[3]
            && buf[i + 4] == p[4]);
    }
}

/// Whether a header has that name, up to case.
pub open spec fn is_named(header: (Seq<char>, Seq<u8>), name: Seq<char>) -> bool {
    text::same_ignoring_ascii_case(header.0, name)
}

proof fn lemma_length_behind(
    headers: Seq<(Seq<char>, Seq<u8>)>,
    after: Seq<(Seq<char>, Seq<u8>)>,
)
    requires
        forall|i: int| 0 <= i < after.len() ==> !is_named(#[trigger] after[i], "content-length"@),
    ensures
        declared_length(headers + after) == declared_length(headers),
    decreases after.len(),
{
    if after.len() == 0 {
        assert(headers + after =~= headers);
    } else {
        let init = after.drop_last();
        assert forall|i: int| 0 <= i < init.len() implies !is_named(
            #[trigger] init[i],
            "content-length"@,
        ) by {
            assert(init[i] == after[i]);
        }
        lemma_length_behind(headers, init);
        assert((headers + after).drop_last() =~= headers + init);
        assert((headers + after).last() == after[after.len() - 1]);
        assert(!is_named(after[after.len() - 1], "content-length"@));
    }
}

/// Whether a header says that the body comes in chunks.
pub open spec fn tells_of_chunks(header: (Seq<char>, Seq<u8>)) -> bool {
    is_named(header, "transfer-encoding"@) && text::contains(
        unicode::lowered(value_text(header.1)),
        "chunked"@,
    )
}

/// A body comes in chunks exactly where some header is a `Transfer-Encoding` that has the
/// word in it, whatever length another header gives.
pub proof fn law_body_comes_in_chunks(headers: Seq<(Seq<char>, Seq<u8>)>)
    ensures
        framing_of(headers) == Framing::Chunked <==> exists|i: int|
            0 <= i < headers.len() && tells_of_chunks(#[trigger] headers[i]),
{
    if exists|i: int| 0 <= i < headers.len() && tells_of_chunks(#[trigger] headers[i]) {
        let i = choose|i: int| 0 <= i < headers.len() && tells_of_chunks(#[trigger] headers[i]);
        assert(names_chunked(headers[i]));
    }
    if framing_of(headers) == Framing::Chunked {
        let i = choose|i: int| 0 <= i < headers.len() && names_chunked(#[trigger] headers[i]);
        assert(tells_of_chunks(headers[i]));
    }
}

/// A body that does not come in chunks has the length that the last header named
/// `Content-Length` gives, up to the case of that name and the white space around the
/// value. Where that gives no number, and where there is no such header, there is no body.
pub proof fn law_body_has_the_length_given(
    before: Seq<(Seq<char>, Seq<u8>)>,
    header: (Seq<char>, Seq<u8>),
    after: Seq<(Seq<char>, Seq<u8>)>,
)
    requires
        is_named(header, "content-length"@),
        forall|i: int| 0 <= i < before.len() ==> !tells_of_chunks(#[trigger] before[i]),
        forall|i: int|
            0 <= i < after.len() ==> !tells_of_chunks(#[trigger] after[i]) && !is_named(
                after[i],
                "content-length"@,
            ),
    ensures
        framing_of(before + seq![header] + after) == (match numbers::parsed(
            unicode::trim(value_text(header.1)),
            usize::MAX as nat,
        ) {
            Some(n) => Framing::Length(n as usize),
            None => Framing::NoBody,
        }),
        framing_of(after) == Framing::NoBody,
{
    let headers = before + seq![header] + after;
    lemma_length_behind(before + seq![header], after);
    assert((before + seq![header]).last() == header);
    reveal_strlit("transfer-encoding");
    reveal_strlit("content-length");
    text::law_case_is_all_that_differs(header.0, "content-length"@);
    text::law_case_is_all_that_differs(header.0, "transfer-encoding"@);
    assert(!is_named(header, "transfer-encoding"@));
    assert forall|i: int| 0 <= i < headers.len() implies !names_chunked(#[trigger] headers[i]) by {
        if i < before.len() {
            assert(headers[i] == before[i]);
            assert(!tells_of_chunks(before[i]));
        } else if i > before.len() {
            assert(headers[i] == after[i - before.len() - 1]);
            assert(!tells_of_chunks(after[i - before.len() - 1]));
        }
    }
    let empty = Seq::<(Seq<char>, Seq<u8>)>::empty();
    lemma_length_behind(empty, after);
    assert(empty + after =~= after);
    assert forall|i: int| 0 <= i < after.len() implies !names_chunked(#[trigger] after[i]) by {
        assert(!tells_of_chunks(after[i]));
    }
}

/// The value of a header is the text that its bytes are, and a length that is written in
/// digits is read as that length.
pub proof fn law_length_reads_back(s: Seq<char>, n: nat)
    ensures
        value_text(encode_utf8(s)) == s,
        n <= usize::MAX ==> numbers::parsed(
            unicode::trim(value_text(encode_utf8(numbers::decimal(n)))),
            usize::MAX as nat,
        ) == Some(n),
{
    encode_utf8_valid_utf8(s);
    encode_utf8_decode_utf8(s);
    let digits = numbers::decimal(n);
    encode_utf8_valid_utf8(digits);
    encode_utf8_decode_utf8(digits);
    numbers::lemma_decimal_reads_back(n);
    numbers::law_number_reads_back(n, usize::MAX as nat);
    assert(numbers::is_digit(digits[0]) && numbers::is_digit(digits[digits.len() - 1]));
    let none = Seq::<char>::empty();
    unicode::law_trim_ignores_outer_space(none, digits, none);
    assert(none + digits + none =~= digits);
}

/// A client that closes its side before the head of its request is complete has sent no
/// request, and neither has one whose head cannot be read.
pub proof fn law_half_a_head_is_no_request(buf: Seq<u8>, end: int, e: Seq<char>)
    ensures
        after_read(ReaderView { buf, phase: Phase::Head }, Seq::empty()) is Err,
        after_head(buf, end, Err(e)) is Err,
        after_head(buf, end, Ok(None)) is Err,
{
}

/// What is read next is never more than what is missing of a body whose length is known,
/// and nothing is read once a request is there.
pub proof fn law_no_more_is_read_than_wanted(n: usize)
    ensures
        wanted_in(Phase::Body(n)) == n,
        wanted_in(Phase::Done) == 0,
        wanted_in(Phase::Head) > 0,
        wanted_in(Phase::Chunks(n)) > 0,
{
}

/// A client that closes its side within the body of its request has sent what came until
/// then.
pub proof fn law_half_a_body_is_a_request(r: ReaderView)
    requires
        r.phase is Chunks || r.phase is Body,
    ensures
        after_read(r, Seq::empty()) == Ok::<ReaderView, Seq<char>>(
            ReaderView { buf: r.buf, phase: Phase::Done },
        ),
{
    assert(r.buf + Seq::<u8>::empty() =~= r.buf);
}

/// What is read before the head is complete is kept, and read again together with what
/// follows.
pub proof fn law_head_is_waited_for(buf: Seq<u8>, data: Seq<u8>)
    requires
        data.len() > 0,
        header_end(buf + data) is None,
    ensures
        after_read(ReaderView { buf, phase: Phase::Head }, data) == Ok::<ReaderView, Seq<char>>(
            ReaderView { buf: buf + data, phase: Phase::Head },
        ),
{
}

} // verus!
