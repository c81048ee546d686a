//! Failures of a proxied connection.

use vstd::prelude::*;

verus! {

/// Why a connection came to an end.
#[derive(Debug)]
pub enum ProxyError {
    /// Reading or writing failed, or what was read is no request.
    Io(String),
    /// The peer broke the HTTP protocol.
    Http(String),
}

/// The text of an error.
pub open spec fn error_text(e: ProxyError) -> Seq<char> {
    match e {
        ProxyError::Io(m) => "io: "@ + m@,
        ProxyError::Http(m) => "http: "@ + m@,
    }
}

impl ProxyError {
    /// The text of the error.
    pub fn message(&self) -> (s: String)
        ensures
            s@ == error_text(*self),
    {
        match self {
            ProxyError::Io(m) => {
                let mut s = "io: ".to_owned();
                s.append(m.as_str());
                s
            },
            ProxyError::Http(m) => {
                let mut s = "http: ".to_owned();
                s.append(m.as_str());
                s
            },
        }
    }
}

} // verus!
