//! What can go wrong with a download, and which of it is worth another try.

use vstd::prelude::*;

use crate::text;

verus! {

/// The kinds of I/O failure the rules tell apart.
#[derive(Debug, Clone, Copy, PartialEq, Eq, Structural)]
pub enum IoKind {
    TimedOut,
    Interrupted,
    ConnectionReset,
    ConnectionAborted,
    BrokenPipe,
    UnexpectedEof,
    PermissionDenied,
    AlreadyExists,
    NotFound,
    InvalidData,
    /// Any other kind, including those the platform leaves uncategorised.
    Other,
}

/// An I/O failure: its kind, the platform's own code, and what it says.
#[derive(Debug, Clone, PartialEq, Eq)]
pub struct IoFault {
    pub kind: IoKind,
    pub code: Option<i32>,
    pub message: String,
}

/// A failed HTTP exchange: what the client knows of it, and what it says.
#[derive(Debug, Clone, PartialEq, Eq)]
pub struct HttpFault {
    pub timeout: bool,
    pub connect: bool,
    pub request: bool,
    pub body: bool,
    pub message: String,
}

/// Why a download stopped short.
#[derive(Debug, Clone, PartialEq, Eq)]
pub enum Error {
    Http(HttpFault),
    Io(IoFault),
    Url(String),
    Json(String),
    Status(u16),
    /// The server answered a ranged request with something other than 206.
    ///
    /// Either it ignores `Range` entirely, or `If-Range` failed and it sent the
    /// whole resource. Writing that body at a segment offset would silently
    /// corrupt the file, so the caller must discard all partial data and
    /// restart as a single sequential stream.
    RangeLost { status: u16 },
    RangeNotSatisfiable { offset: u64 },
    ResourceChanged,
    RetriesExhausted(String),
    Cancelled,
    Other(String),
}

/// What an I/O failure is, mathematically.
#[verifier::ext_equal]
pub struct IoFaultView {
    pub kind: IoKind,
    pub code: Option<i32>,
    pub message: Seq<char>,
}

/// What a failed HTTP exchange is, mathematically.
#[verifier::ext_equal]
pub struct HttpFaultView {
    pub timeout: bool,
    pub connect: bool,
    pub request: bool,
    pub body: bool,
    pub message: Seq<char>,
}

/// What an error is, mathematically.
#[verifier::ext_equal]
pub enum ErrorView {
    Http(HttpFaultView),
    Io(IoFaultView),
    Url(Seq<char>),
    Json(Seq<char>),
    Status(u16),
    RangeLost { status: u16 },
    RangeNotSatisfiable { offset: u64 },
    ResourceChanged,
    RetriesExhausted(Seq<char>),
    Cancelled,
    Other(Seq<char>),
}

impl View for IoFault {
    type V = IoFaultView;

    open spec fn view(&self) -> IoFaultView {
        IoFaultView { kind: self.kind, code: self.code, message: self.message@ }
    }
}

impl View for HttpFault {
    type V = HttpFaultView;

    open spec fn view(&self) -> HttpFaultView {
        HttpFaultView {
            timeout: self.timeout,
            connect: self.connect,
            request: self.request,
            body: self.body,
            message: self.message@,
        }
    }
}

impl View for Error {
    type V = ErrorView;

    open spec fn view(&self) -> ErrorView {
        match self {
            Error::Http(e) => ErrorView::Http(e@),
            Error::Io(e) => ErrorView::Io(e@),
            Error::Url(m) => ErrorView::Url(m@),
            Error::Json(m) => ErrorView::Json(m@),
            Error::Status(s) => ErrorView::Status(*s),
            Error::RangeLost { status } => ErrorView::RangeLost { status: *status },
            Error::RangeNotSatisfiable { offset } => ErrorView::RangeNotSatisfiable {
                offset: *offset,
            },
            Error::ResourceChanged => ErrorView::ResourceChanged,
            Error::RetriesExhausted(m) => ErrorView::RetriesExhausted(m@),
            Error::Cancelled => ErrorView::Cancelled,
            Error::Other(m) => ErrorView::Other(m@),
        }
    }
}

impl ErrorView {
    /// A transient failure, as opposed to a structural one.
    pub open spec fn is_retryable(self) -> bool {
        match self {
            ErrorView::Http(e) => e.timeout || e.connect || e.request || e.body,
            ErrorView::Io(e) => e.kind == IoKind::TimedOut || e.kind == IoKind::Interrupted
                || e.kind == IoKind::ConnectionReset || e.kind == IoKind::ConnectionAborted
                || e.kind == IoKind::BrokenPipe || e.kind == IoKind::UnexpectedEof,
            ErrorView::Status(s) => s == 408 || s == 429 || 500 <= s < 600,
            _ => false,
        }
    }

    /// What the error says.
    pub open spec fn message(self) -> Seq<char> {
        match self {
            ErrorView::Http(e) => "http error: "@ + e.message,
            ErrorView::Io(e) => "io error: "@ + e.message,
            ErrorView::Url(m) => "invalid url: "@ + m,
            ErrorView::Json(m) => "json error: "@ + m,
            ErrorView::Status(s) => "server returned status "@ + text::decimal(s as nat),
            ErrorView::RangeLost { status } => "range request not honoured (server replied "@
                + text::decimal(status as nat) + "); must restart sequentially"@,
            ErrorView::RangeNotSatisfiable { offset } => "range not satisfiable (416) at offset "@
                + text::decimal(offset as nat) + "; remote file shrank"@,
            ErrorView::ResourceChanged =>
                "resource changed on server since the download started"@,
            ErrorView::RetriesExhausted(m) => "gave up after exhausting retries: "@ + m,
            ErrorView::Cancelled => "download cancelled"@,
            ErrorView::Other(m) => m,
        }
    }
}

/// `front` followed by `back`.
pub fn joined(front: &str, back: &str) -> (r: String)
    ensures
        r@ == front@ + back@,
{
    let mut out = front.to_owned();
    out.append(back);
    out
}

impl IoFault {
    /// A copy of this failure.
    pub fn copied(&self) -> (r: IoFault)
        ensures
            r@ == self@,
    {
        IoFault { kind: self.kind, code: self.code, message: self.message.clone() }
    }
}

impl Error {
    /// A copy of this error.
    pub fn copied(&self) -> (r: Error)
        ensures
            r@ == self@,
    {
        match self {
            Error::Http(e) => Error::Http(
                HttpFault {
                    timeout: e.timeout,
                    connect: e.connect,
                    request: e.request,
                    body: e.body,
                    message: e.message.clone(),
                },
            ),
            Error::Io(e) => Error::Io(e.copied()),
            Error::Url(m) => Error::Url(m.clone()),
            Error::Json(m) => Error::Json(m.clone()),
            Error::Status(s) => Error::Status(*s),
            Error::RangeLost { status } => Error::RangeLost { status: *status },
            Error::RangeNotSatisfiable { offset } => Error::RangeNotSatisfiable {
                offset: *offset,
            },
            Error::ResourceChanged => Error::ResourceChanged,
            Error::RetriesExhausted(m) => Error::RetriesExhausted(m.clone()),
            Error::Cancelled => Error::Cancelled,
            Error::Other(m) => Error::Other(m.clone()),
        }
    }

    pub fn other(msg: &str) -> (r: Error)
        ensures
            r@ == ErrorView::Other(msg@),
    {
        Error::Other(msg.to_owned())
    }

    /// Transient failures worth retrying with backoff, as opposed to
    /// structural problems where retrying the same request cannot help.
    pub fn is_retryable(&self) -> (r: bool)
        ensures
            r == self@.is_retryable(),
    {
        match self {
            Error::Http(e) => e.timeout || e.connect || e.request || e.body,
            Error::Io(e) => e.kind == IoKind::TimedOut || e.kind == IoKind::Interrupted || e.kind
                == IoKind::ConnectionReset || e.kind == IoKind::ConnectionAborted || e.kind
                == IoKind::BrokenPipe || e.kind == IoKind::UnexpectedEof,
            // 408 Request Timeout, 429 Too Many Requests, and 5xx are worth another try.
            Error::Status(s) => *s == 408 || *s == 429 || (500 <= *s && *s < 600),
            _ => false,
        }
    }

    /// What the error says.
    pub fn message(&self) -> (r: String)
        ensures
            r@ == self@.message(),
    {
        match self {
            Error::Http(e) => joined("http error: ", e.message.as_str()),
            Error::Io(e) => joined("io error: ", e.message.as_str()),
            Error::Url(m) => joined("invalid url: ", m.as_str()),
            Error::Json(m) => joined("json error: ", m.as_str()),
            Error::Status(s) => {
                joined("server returned status ", text::decimal_of(*s as u64).as_str())
            },
            Error::RangeLost { status } => {
                let mut out = joined(
                    "range request not honoured (server replied ",
                    text::decimal_of(*status as u64).as_str(),
                );
                out.append("); must restart sequentially");
                out
            },
            Error::RangeNotSatisfiable { offset } => {
                let mut out = joined(
                    "range not satisfiable (416) at offset ",
                    text::decimal_of(*offset).as_str(),
                );
                out.append("; remote file shrank");
                out
            },
            Error::ResourceChanged => {
                "resource changed on server since the download started".to_owned()
            },
            Error::RetriesExhausted(m) => joined("gave up after exhausting retries: ", m.as_str()),
            Error::Cancelled => "download cancelled".to_owned(),
            Error::Other(m) => m.clone(),
        }
    }
}

/// What is worth another try is what may pass: a request that timed out, whose
/// connection failed or broke off, a server that is busy or at fault. A server that
/// says no, a range that is lost and a download that is stopped are final.
pub proof fn law_only_what_may_pass_is_tried_again(e: ErrorView)
    ensures
        e matches ErrorView::Http(f) ==> (e.is_retryable() <==> f.timeout || f.connect || f.request
            || f.body),
        e matches ErrorView::Io(f) ==> (!e.is_retryable() <==> f.kind == IoKind::PermissionDenied
            || f.kind == IoKind::AlreadyExists || f.kind == IoKind::NotFound || f.kind
            == IoKind::InvalidData || f.kind == IoKind::Other),
        e matches ErrorView::Status(s) ==> (500 <= s <= 599 ==> e.is_retryable()),
        e matches ErrorView::Status(s) ==> (s < 500 || s > 599 ==> (e.is_retryable() <==> s == 408
            || s == 429)),
        e.is_retryable() ==> e is Http || e is Io || e is Status,
{
}

} // verus!
