//! Reading a request off a connection.

use agent_env::proxy::error::ProxyError;
use agent_env::proxy::request::{
    find_header_end, find_terminator, framing, read_http_request, Framing, Phase, RequestReader,
};
use agent_env::single_key;

fn io_error(r: Result<Vec<u8>, ProxyError>) -> String {
    match r {
        Err(ProxyError::Io(m)) => m,
        other => panic!("expected an i/o error, got {other:?}"),
    }
}

#[test]
fn test_read_http_request_simple() {
    let request = b"GET /v1/models HTTP/1.1\r\nHost: api.openai.com\r\n\r\n";
    let result = read_http_request(request).unwrap();
    let s = String::from_utf8_lossy(&result);
    assert!(s.contains("GET /v1/models"));
    assert!(s.contains("Host: api.openai.com"));
}

#[test]
fn test_read_http_request_with_content_length() {
    let body = r#"{"model":"gpt-4","messages":[]}"#;
    let request = format!(
        "POST /v1/chat/completions HTTP/1.1\r\nHost: api.openai.com\r\nContent-Type: application/json\r\nContent-Length: {}\r\n\r\n{}",
        body.len(),
        body
    );
    let result = read_http_request(request.as_bytes()).unwrap();
    let s = String::from_utf8_lossy(&result);
    assert!(s.contains("POST /v1/chat/completions"));
    assert!(s.contains(body));
}

#[test]
fn test_read_http_request_chunked() {
    let request = b"POST /upload HTTP/1.1\r\nHost: example.com\r\nTransfer-Encoding: chunked\r\n\r\n4\r\nWiki\r\n5\r\npedia\r\n0\r\n\r\n";
    let result = read_http_request(request).unwrap();
    let s = String::from_utf8_lossy(&result);
    assert!(s.contains("POST /upload"));
    assert!(s.contains("Transfer-Encoding: chunked"));
    assert!(s.contains("Wiki"));
    assert!(s.contains("pedia"));
}

#[test]
fn what_follows_the_chunks_is_dropped() {
    let request = b"POST / HTTP/1.1\r\nTransfer-Encoding: gzip, Chunked\r\n\r\n0\r\n\r\nGET / HTTP/1.1\r\n\r\n";
    let want = b"POST / HTTP/1.1\r\nTransfer-Encoding: gzip, Chunked\r\n\r\n0\r\n\r\n";
    assert_eq!(read_http_request(request).unwrap(), want.to_vec());
}

#[test]
fn a_request_is_read_in_pieces() {
    let mut r = RequestReader::new();
    assert_eq!(r.wanted(), 4096);
    r.take(b"POST / HTTP/1.1\r\nContent-Le").unwrap();
    assert_eq!(r.phase, Phase::Head);
    r.take(b"ngth: 5\r\n\r\nab").unwrap();
    assert_eq!(r.phase, Phase::Body(3));
    assert_eq!(r.wanted(), 3);
    r.take(b"c").unwrap();
    assert_eq!(r.phase, Phase::Body(2));
    r.take(b"de").unwrap();
    assert!(r.is_done());
    assert_eq!(r.buf, b"POST / HTTP/1.1\r\nContent-Length: 5\r\n\r\nabcde".to_vec());
}

#[test]
fn a_body_may_end_early() {
    let request = b"POST / HTTP/1.1\r\nContent-Length: 50\r\n\r\nabc";
    assert_eq!(read_http_request(request).unwrap(), request.to_vec());
    let request = b"POST / HTTP/1.1\r\nTransfer-Encoding: chunked\r\n\r\n5\r\nab";
    assert_eq!(read_http_request(request).unwrap(), request.to_vec());
}

#[test]
fn the_last_content_length_counts() {
    let header = |n: &str, v: &str| (n.to_string(), v.as_bytes().to_vec());
    assert_eq!(
        framing(&vec![header("Content-Length", "5"), header("content-length", " 7 ")]),
        Framing::Length(7)
    );
    assert_eq!(
        framing(&vec![header("Content-Length", "5"), header("content-length", "x")]),
        Framing::NoBody
    );
    assert_eq!(framing(&vec![]), Framing::NoBody);
    assert_eq!(
        framing(&vec![header("transfer-encoding", "CHUNKED"), header("content-length", "1")]),
        Framing::Chunked
    );
    assert_eq!(
        framing(&vec![("content-length".to_string(), vec![0xff])]),
        Framing::NoBody
    );
}

#[test]
fn each_reading_error_has_its_text() {
    assert_eq!(io_error(read_http_request(b"")), "empty request from client");
    assert_eq!(
        io_error(read_http_request(b"GET / HTTP/1.1\r\n")),
        "connection closed before headers complete"
    );
    assert_eq!(
        io_error(read_http_request(b"GET / HTTP/9.9\r\n\r\n")),
        "httparse error: invalid HTTP version"
    );
    assert_eq!(
        ProxyError::Io("x".to_string()).message(),
        "io: x".to_string()
    );
    assert_eq!(
        ProxyError::Http("y".to_string()).message(),
        "http: y".to_string()
    );
}

#[test]
fn headers_that_are_not_complete_are_refused() {
    let mut r = RequestReader::new();
    r.buf = b"\r\n\r\n".to_vec();
    match r.begin_body(4, Ok(None)) {
        Err(ProxyError::Io(m)) => assert_eq!(m, "incomplete headers after read"),
        other => panic!("expected an i/o error, got {other:?}"),
    }
}

#[test]
fn marks_are_found_where_they_end() {
    assert_eq!(find_header_end(b"a\r\n\r\nb\r\n\r\n"), Some(5));
    assert_eq!(find_header_end(b"\r\n\r"), None);
    assert_eq!(find_terminator(b"0\r\n\r\n0\r\n\r\n", 1), Some(10));
    assert_eq!(find_terminator(b"0\r\n\r\n", 1), None);
    assert_eq!(find_terminator(b"0\r\n\r\n", usize::MAX), None);
}

#[test]
fn single_bytes_stop_at_the_end_of_the_headers() {
    let mut r = single_key::request::ByteReader::new();
    for b in b"POST / HTTP/1.1\r\nContent-Length: 2\r\n\r\n" {
        assert_eq!(r.wanted(), 1);
        r.take(&[*b]).unwrap();
    }
    assert_eq!(r.phase, single_key::request::Phase::Body(2));
    r.take(b"ok").unwrap();
    assert!(r.is_done());
    assert_eq!(r.buf, b"POST / HTTP/1.1\r\nContent-Length: 2\r\n\r\nok".to_vec());
}

#[test]
fn single_bytes_stop_at_the_last_chunk() {
    let mut r = single_key::request::ByteReader::new();
    let request = b"P / H\r\nTransfer-Encoding: CHUNKED\r\n\r\n1\r\nx\r\n0\r\n\r\n";
    for b in request {
        assert!(!r.is_done());
        r.take(&[*b]).unwrap();
    }
    assert!(r.is_done());
    assert_eq!(r.buf, request.to_vec());
}

#[test]
fn single_bytes_take_an_early_end_as_the_end_of_the_headers() {
    let mut r = single_key::request::ByteReader::new();
    match r.take(b"") {
        Err(ProxyError::Io(m)) => assert_eq!(m, "empty request from client"),
        other => panic!("expected an i/o error, got {other:?}"),
    }
    let mut r = single_key::request::ByteReader::new();
    r.take(b"G").unwrap();
    r.take(b"").unwrap();
    assert!(r.is_done());
}

#[test]
fn the_first_content_length_line_counts() {
    let f = single_key::request::extract_content_length;
    assert_eq!(f("GET /\r\nContent-Length: 12\r\ncontent-length: 13\r\n"), Some(12));
    assert_eq!(f("content-length: x\r\ncontent-length: 13"), None);
    assert_eq!(f("CONTENT-LENGTH :\t+7\n"), Some(7));
    assert_eq!(f("Host: x"), None);
    assert_eq!(f("content-length: 99999999999999999999999"), None);
}

#[test]
fn cuts_do_not_matter() {
    for request in [
        "GET / HTTP/1.1\r\nHost: x\r\n\r\n",
        "POST / HTTP/1.1\r\nContent-Length: 5\r\n\r\nab\r\n\r",
        "POST / HTTP/1.1\r\nContent-Length: 0\r\n\r\n",
        "POST / HTTP/1.1\r\nTransfer-Encoding: chunked\r\n\r\n2\r\nab\r\n0\r\n\r\n",
    ] {
        let whole = request.as_bytes();
        assert_eq!(read_http_request(whole).unwrap(), whole.to_vec());
        for first in 1..whole.len() {
            for size in [1, 2, 3, 7, whole.len()] {
                let mut r = RequestReader::new();
                r.take(&whole[..first]).unwrap();
                let mut at = first;
                while at < whole.len() {
                    assert!(!r.is_done());
                    let n = size.min(whole.len() - at).min(r.wanted());
                    r.take(&whole[at..at + n]).unwrap();
                    at += n;
                }
                assert!(r.is_done());
                assert_eq!(r.buf, whole.to_vec());
            }
        }
    }
}
