//! Error codes and replies of the manager's interface.

use vstd::prelude::*;

use super::types::{
    CreatedView, DeleteResponse, DeletedView, EnvironmentListResponse, EnvironmentResponse,
    EnvironmentStatusResponse, StatusView, SummaryView,
};

verus! {

/// What kind of error a request ended in.
#[derive(Clone, Copy, Debug, PartialEq, Eq, Structural)]
pub enum ErrorCode {
    /// The request is malformed or lacks something.
    InvalidRequest,
    /// There is no environment with that id.
    SessionNotFound,
    /// There is no such image.
    ImageNotFound,
    /// The id is taken.
    SessionExists,
    /// A credential reference could not be resolved.
    CredentialRefInvalid,
    /// The machine could not be launched.
    VmLaunchFailed,
    /// The proxy could not be reached or did not take the session.
    ProxyUnavailable,
    /// Something else went wrong.
    InternalError,
}

/// The HTTP status of an error code.
pub open spec fn status_of(code: ErrorCode) -> u16 {
    match code {
        ErrorCode::InvalidRequest => 400,
        ErrorCode::SessionNotFound => 404,
        ErrorCode::ImageNotFound => 404,
        ErrorCode::SessionExists => 409,
        ErrorCode::CredentialRefInvalid => 422,
        ErrorCode::VmLaunchFailed => 500,
        ErrorCode::ProxyUnavailable => 502,
        ErrorCode::InternalError => 500,
    }
}

/// The text of an error code.
pub open spec fn code_text(code: ErrorCode) -> Seq<char> {
    match code {
        ErrorCode::InvalidRequest => "INVALID_REQUEST"@,
        ErrorCode::SessionNotFound => "SESSION_NOT_FOUND"@,
        ErrorCode::ImageNotFound => "IMAGE_NOT_FOUND"@,
        ErrorCode::SessionExists => "SESSION_EXISTS"@,
        ErrorCode::CredentialRefInvalid => "CREDENTIAL_REF_INVALID"@,
        ErrorCode::VmLaunchFailed => "VM_LAUNCH_FAILED"@,
        ErrorCode::ProxyUnavailable => "PROXY_UNAVAILABLE"@,
        ErrorCode::InternalError => "INTERNAL_ERROR"@,
    }
}

impl ErrorCode {
    /// The HTTP status of the code.
    pub fn status(&self) -> (n: u16)
        ensures
            n == status_of(*self),
    {
        match self {
            ErrorCode::InvalidRequest => 400,
            ErrorCode::SessionNotFound => 404,
            ErrorCode::ImageNotFound => 404,
            ErrorCode::SessionExists => 409,
            ErrorCode::CredentialRefInvalid => 422,
            ErrorCode::VmLaunchFailed => 500,
            ErrorCode::ProxyUnavailable => 502,
            ErrorCode::InternalError => 500,
        }
    }

    /// The text of the code.
    pub fn as_str(&self) -> (s: &'static str)
        ensures
            s@ == code_text(*self),
    {
        match self {
            ErrorCode::InvalidRequest => "INVALID_REQUEST",
            ErrorCode::SessionNotFound => "SESSION_NOT_FOUND",
            ErrorCode::ImageNotFound => "IMAGE_NOT_FOUND",
            ErrorCode::SessionExists => "SESSION_EXISTS",
            ErrorCode::CredentialRefInvalid => "CREDENTIAL_REF_INVALID",
            ErrorCode::VmLaunchFailed => "VM_LAUNCH_FAILED",
            ErrorCode::ProxyUnavailable => "PROXY_UNAVAILABLE",
            ErrorCode::InternalError => "INTERNAL_ERROR",
        }
    }
}

/// What is told of an error.
#[derive(Debug)]
pub struct ErrorDetail {
    /// The text of its code.
    pub code: String,
    /// What happened.
    pub message: String,
    /// More on it.
    pub detail: Option<String>,
}

/// The envelope of an error.
#[derive(Debug)]
pub struct ErrorResponse {
    /// What is told of it.
    pub error: ErrorDetail,
}

/// The texts of an error.
pub struct ErrorView {
    /// The text of its code.
    pub code: Seq<char>,
    /// What happened.
    pub message: Seq<char>,
    /// More on it.
    pub detail: Option<Seq<char>>,
}

impl View for ErrorResponse {
    type V = ErrorView;

    open spec fn view(&self) -> ErrorView {
        ErrorView {
            code: self.error.code@,
            message: self.error.message@,
            detail: crate::text::opt_view(self.error.detail),
        }
    }
}

impl ErrorResponse {
    /// An error without detail.
    pub fn new(code: ErrorCode, message: &str) -> (r: ErrorResponse)
        ensures
            r@ == (ErrorView { code: code_text(code), message: message@, detail: None }),
    {
        ErrorResponse {
            error: ErrorDetail {
                code: code.as_str().to_owned(),
                message: message.to_owned(),
                detail: None,
            },
        }
    }

    /// An error with its detail.
    pub fn with_detail(code: ErrorCode, message: &str, detail: &str) -> (r: ErrorResponse)
        ensures
            r@ == (ErrorView {
                code: code_text(code),
                message: message@,
                detail: Some(detail@),
            }),
    {
        ErrorResponse {
            error: ErrorDetail {
                code: code.as_str().to_owned(),
                message: message.to_owned(),
                detail: Some(detail.to_owned()),
            },
        }
    }
}

/// What a reply carries.
pub enum Body {
    /// An error.
    Error(ErrorResponse),
    /// A new environment.
    Created(EnvironmentResponse),
    /// How an environment is.
    Status(EnvironmentStatusResponse),
    /// A list of environments.
    List(EnvironmentListResponse),
    /// An environment that is taken down.
    Deleted(DeleteResponse),
    /// Server-sent events, all of them.
    Events(String),
    /// Server-sent events as they come, of the environment with that id.
    Live(String),
}

/// A reply of the manager.
pub struct Reply {
    /// The HTTP status.
    pub status: u16,
    /// What it carries.
    pub body: Body,
}

/// The view of what a reply carries.
pub enum BodyView {
    /// An error.
    Error(ErrorView),
    /// A new environment.
    Created(CreatedView),
    /// How an environment is.
    Status(StatusView),
    /// A list of environments.
    List(Seq<SummaryView>),
    /// An environment that is taken down.
    Deleted(DeletedView),
    /// Server-sent events, all of them.
    Events(Seq<char>),
    /// Server-sent events as they come.
    Live(Seq<char>),
}

/// The view of a reply.
pub struct ReplyView {
    /// The HTTP status.
    pub status: u16,
    /// What it carries.
    pub body: BodyView,
}

impl View for Reply {
    type V = ReplyView;

    open spec fn view(&self) -> ReplyView {
        ReplyView {
            status: self.status,
            body: match self.body {
                Body::Error(e) => BodyView::Error(e@),
                Body::Created(r) => BodyView::Created(r@),
                Body::Status(r) => BodyView::Status(r@),
                Body::List(r) => BodyView::List(super::types::summary_views(r.environments@)),
                Body::Deleted(r) => BodyView::Deleted(r@),
                Body::Events(s) => BodyView::Events(s@),
                Body::Live(s) => BodyView::Live(s@),
            },
        }
    }
}

impl Reply {
    /// Whether it carries server-sent events.
    pub fn is_events(&self) -> (r: bool)
        ensures
            r == (self@.body is Events || self@.body is Live),
    {
        match self.body {
            Body::Events(_) => true,
            Body::Live(_) => true,
            _ => false,
        }
    }

    /// The content type of what it carries.
    pub fn content_type(&self) -> (s: &'static str)
        ensures
            s@ == (if self@.body is Events || self@.body is Live {
                "text/event-stream"@
            } else {
                "application/json"@
            }),
    {
        if self.is_events() {
            "text/event-stream"
        } else {
            "application/json"
        }
    }

    /// What it says on being kept by others, if anything.
    pub fn cache_control(&self) -> (r: Option<&'static str>)
        ensures
            match r {
                Some(s) => (self@.body is Events || self@.body is Live) && s@ == "no-cache"@,
                None => !(self@.body is Events || self@.body is Live),
            },
    {
        if self.is_events() {
            Some("no-cache")
        } else {
            None
        }
    }
}

/// The reply that tells of an error.
pub open spec fn error_reply(
    status: u16,
    code: ErrorCode,
    message: Seq<char>,
    detail: Option<Seq<char>>,
) -> ReplyView {
    ReplyView {
        status,
        body: BodyView::Error(ErrorView { code: code_text(code), message, detail }),
    }
}

/// The reply that tells of an error, under the status of its code.
pub open spec fn failure(code: ErrorCode, message: Seq<char>, detail: Option<Seq<char>>) -> ReplyView {
    error_reply(status_of(code), code, message, detail)
}

/// The reply that tells of an error.
pub fn json_error(status: u16, code: ErrorCode, message: &str) -> (r: Reply)
    ensures
        r@ == error_reply(status, code, message@, None),
{
    Reply { status, body: Body::Error(ErrorResponse::new(code, message)) }
}

/// The reply that tells of an error and of its detail.
pub fn json_error_with_detail(status: u16, code: ErrorCode, message: &str, detail: &str) -> (r:
    Reply)
    ensures
        r@ == error_reply(status, code, message@, Some(detail@)),
{
    Reply { status, body: Body::Error(ErrorResponse::with_detail(code, message, detail)) }
}

/// No two codes have the same text, so the text tells the code.
pub proof fn law_code_text_tells_code(a: ErrorCode, b: ErrorCode)
    requires
        code_text(a) == code_text(b),
    ensures
        a == b,
{
    reveal_strlit("INVALID_REQUEST");
    reveal_strlit("SESSION_NOT_FOUND");
    reveal_strlit("IMAGE_NOT_FOUND");
    reveal_strlit("SESSION_EXISTS");
    reveal_strlit("CREDENTIAL_REF_INVALID");
    reveal_strlit("VM_LAUNCH_FAILED");
    reveal_strlit("PROXY_UNAVAILABLE");
    reveal_strlit("INTERNAL_ERROR");
    assert("INVALID_REQUEST"@.len() == 15 && "INVALID_REQUEST"@[1] == 'N');
    assert("SESSION_NOT_FOUND"@.len() == 17 && "SESSION_NOT_FOUND"@[1] == 'E');
    assert("IMAGE_NOT_FOUND"@.len() == 15 && "IMAGE_NOT_FOUND"@[1] == 'M');
    assert("SESSION_EXISTS"@.len() == 14 && "SESSION_EXISTS"@[1] == 'E');
    assert("CREDENTIAL_REF_INVALID"@.len() == 22 && "CREDENTIAL_REF_INVALID"@[1] == 'R');
    assert("VM_LAUNCH_FAILED"@.len() == 16 && "VM_LAUNCH_FAILED"@[1] == 'M');
    assert("PROXY_UNAVAILABLE"@.len() == 17 && "PROXY_UNAVAILABLE"@[1] == 'R');
    assert("INTERNAL_ERROR"@.len() == 14 && "INTERNAL_ERROR"@[1] == 'N');
    assert(code_text(a).len() == code_text(b).len());
    assert(code_text(a)[1] == code_text(b)[1]);
}

/// What the client can mend has a status from 400 on, and what it cannot one from 500 on. A
/// reply tells the code, the message and the detail that it was made with.
pub proof fn law_failure_is_told(code: ErrorCode, message: Seq<char>, detail: Option<Seq<char>>)
    ensures
        failure(code, message, detail).status == status_of(code),
        failure(code, message, detail).body == BodyView::Error(
            ErrorView { code: code_text(code), message, detail },
        ),
        status_of(code) >= 500 <==> (code == ErrorCode::VmLaunchFailed || code
            == ErrorCode::ProxyUnavailable || code == ErrorCode::InternalError),
        400 <= status_of(code) < 600,
        status_of(code) == 404 <==> (code == ErrorCode::SessionNotFound || code
            == ErrorCode::ImageNotFound),
        status_of(code) == 409 <==> code == ErrorCode::SessionExists,
        status_of(code) == 422 <==> code == ErrorCode::CredentialRefInvalid,
        status_of(code) == 502 <==> code == ErrorCode::ProxyUnavailable,
{
}

/// A reply, and what it carries, are seen with all that they hold.
pub proof fn law_reply_is_seen_whole(r: Reply, e: ErrorResponse)
    ensures
        r@.status == r.status,
        r.body matches Body::Error(x) ==> r@.body == BodyView::Error(x@),
        r.body matches Body::Created(x) ==> r@.body == BodyView::Created(x@),
        r.body matches Body::Status(x) ==> r@.body == BodyView::Status(x@),
        r.body matches Body::List(x) ==> (r@.body matches BodyView::List(l) && l.len()
            == x.environments@.len() && forall|i: int|
            0 <= i < l.len() ==> #[trigger] l[i] == x.environments@[i]@),
        r.body matches Body::Deleted(x) ==> r@.body == BodyView::Deleted(x@),
        r.body matches Body::Events(x) ==> r@.body == BodyView::Events(x@),
        r.body matches Body::Live(x) ==> r@.body == BodyView::Live(x@),
        e@.code == e.error.code@,
        e@.message == e.error.message@,
        e.error.detail is Some <==> e@.detail is Some,
        e.error.detail matches Some(t) ==> e@.detail == Some(t@),
{
}

} // verus!
