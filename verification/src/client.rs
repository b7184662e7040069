//! The client side of one connection.
//!
//! A client is one stream owned by one caller: the reply to a request is the next
//! reply on the wire, and that is only true if one caller is asking at a time.

use vstd::prelude::*;

use crate::error::{joined, IoFault, IoFaultView};
use crate::frame;
use crate::manager::ManagerView;
use crate::model::{rows, DownloadEntry, DownloadId, EntryView};
use crate::session::{answered, is_session_step, Received, SessionStep};
use crate::text;
use crate::wire::{
    mismatch_text, opt_entry, Call, ErrorKind, EventMessage, Reply, ReplyView, Request,
    ServerMessage, Welcome, WelcomeView, PROTOCOL_VERSION,
};

verus! {

/// Everything that can go wrong talking to the download list.
#[derive(Debug, Clone, PartialEq, Eq)]
pub enum ClientError {
    /// No FDM is listening: the caller's cue to do the work itself.
    NotRunning,
    Io(IoFault),
    /// FDM answered, and the answer was no.
    Refused { kind: ErrorKind, message: String },
    /// A reply arrived that does not answer the request that was sent.
    OutOfTurn { expected: u64, got: u64 },
    /// The reply was well-formed but the wrong kind.
    Unexpected { expected: &'static str, got: &'static str },
    Closed,
}

/// What such an error is, mathematically.
#[verifier::ext_equal]
pub enum ClientErrorView {
    NotRunning,
    Io(IoFaultView),
    Refused { kind: ErrorKind, message: Seq<char> },
    OutOfTurn { expected: u64, got: u64 },
    Unexpected { expected: Seq<char>, got: Seq<char> },
    Closed,
}

impl View for ClientError {
    type V = ClientErrorView;

    open spec fn view(&self) -> ClientErrorView {
        match self {
            ClientError::NotRunning => ClientErrorView::NotRunning,
            ClientError::Io(e) => ClientErrorView::Io(e@),
            ClientError::Refused { kind, message } => ClientErrorView::Refused {
                kind: *kind,
                message: message@,
            },
            ClientError::OutOfTurn { expected, got } => ClientErrorView::OutOfTurn {
                expected: *expected,
                got: *got,
            },
            ClientError::Unexpected { expected, got } => ClientErrorView::Unexpected {
                expected: expected@,
                got: got@,
            },
            ClientError::Closed => ClientErrorView::Closed,
        }
    }
}

impl ClientErrorView {
    /// What the error says.
    pub open spec fn message(self) -> Seq<char> {
        match self {
            ClientErrorView::NotRunning => "FDM is not running"@,
            ClientErrorView::Io(e) => "the connection to FDM failed: "@ + e.message,
            ClientErrorView::Refused { message, .. } => message,
            ClientErrorView::OutOfTurn { expected, got } =>
                "FDM replied out of turn (expected #"@ + text::decimal(expected as nat)
                    + ", got #"@ + text::decimal(got as nat) + ")"@,
            ClientErrorView::Unexpected { expected, got } => "FDM replied with "@ + got
                + " where "@ + expected + " was expected"@,
            ClientErrorView::Closed => "FDM closed the connection without answering"@,
        }
    }
}

impl ClientError {
    /// What the error says.
    pub fn message(&self) -> (r: String)
        ensures
            r@ == self@.message(),
    {
        match self {
            ClientError::NotRunning => "FDM is not running".to_owned(),
            ClientError::Io(e) => joined("the connection to FDM failed: ", e.message.as_str()),
            ClientError::Refused { message, .. } => message.clone(),
            ClientError::OutOfTurn { expected, got } => {
                let mut m = joined(
                    "FDM replied out of turn (expected #",
                    text::decimal_of(*expected).as_str(),
                );
                m.append(", got #");
                m.append(text::decimal_of(*got).as_str());
                m.append(")");
                m
            },
            ClientError::Unexpected { expected, got } => {
                let mut m = joined("FDM replied with ", got);
                m.append(" where ");
                m.append(expected);
                m.append(" was expected");
                m
            },
            ClientError::Closed => "FDM closed the connection without answering".to_owned(),
        }
    }
}

// ------------------------------------------------------------------- replies
/// What kind of reply this is, by name.
pub open spec fn reply_name(reply: ReplyView) -> Seq<char> {
    match reply {
        ReplyView::Welcome { .. } => "welcome"@,
        ReplyView::Added { .. } => "added"@,
        ReplyView::Done => "done"@,
        ReplyView::Count { .. } => "count"@,
        ReplyView::List { .. } => "list"@,
        ReplyView::Entry { .. } => "entry"@,
        ReplyView::Error { .. } => "error"@,
    }
}

/// What kind of reply this is, by name.
pub fn name_of(reply: &Reply) -> (r: &'static str)
    ensures
        r@ == reply_name(reply@),
{
    match reply {
        Reply::Welcome { .. } => "welcome",
        Reply::Added { .. } => "added",
        Reply::Done => "done",
        Reply::Count { .. } => "count",
        Reply::List { .. } => "list",
        Reply::Entry { .. } => "entry",
        Reply::Error { .. } => "error",
    }
}

/// What a reply that is not the one that was due amounts to.
pub open spec fn misfit(what: Seq<char>, got: ReplyView) -> ClientErrorView {
    match got {
        ReplyView::Error { kind, message } => ClientErrorView::Refused { kind, message },
        other => ClientErrorView::Unexpected { expected: what, got: reply_name(other) },
    }
}

/// What a reply that is not the one that was due amounts to.
pub fn expected(what: &'static str, got: Reply) -> (r: ClientError)
    ensures
        r@ == misfit(what@, got@),
{
    let name: &'static str = name_of(&got);
    match got {
        Reply::Error { kind, message } => ClientError::Refused { kind, message },
        _ => ClientError::Unexpected { expected: what, got: name },
    }
}

/// What came off the connection.
pub enum Arrived {
    Message(ServerMessage),
    Closed,
    Fault(IoFault),
}

/// Where waiting for a reply stands.
pub enum Awaited {
    Reply(Reply),
    Failed(ClientError),
    /// That was a pushed event: wait on.
    Again,
}

/// Look at what arrived while the reply to `seq` is outstanding. Events are
/// dropped, not buffered.
pub fn await_reply(seq: u64, arrived: Arrived) -> (r: Awaited)
    ensures
        match arrived {
            Arrived::Message(ServerMessage::Reply { seq: got, reply }) => if got == seq {
                r == Awaited::Reply(reply)
            } else {
                r == Awaited::Failed(ClientError::OutOfTurn { expected: seq, got })
            },
            Arrived::Message(ServerMessage::Event(_)) => r == Awaited::Again,
            Arrived::Closed => r == Awaited::Failed(ClientError::Closed),
            Arrived::Fault(e) => if frame::is_disconnect_fault(e@) {
                r == Awaited::Failed(ClientError::Closed)
            } else {
                r == Awaited::Failed(ClientError::Io(e))
            },
        },
{
    match arrived {
        Arrived::Message(ServerMessage::Reply { seq: got, reply }) => if got == seq {
            Awaited::Reply(reply)
        } else {
            Awaited::Failed(ClientError::OutOfTurn { expected: seq, got })
        },
        Arrived::Message(ServerMessage::Event(_)) => Awaited::Again,
        Arrived::Closed => Awaited::Failed(ClientError::Closed),
        Arrived::Fault(e) => if frame::is_disconnect(&e) {
            Awaited::Failed(ClientError::Closed)
        } else {
            Awaited::Failed(ClientError::Io(e))
        },
    }
}

/// Where waiting for an event stands.
pub enum Next {
    Event(EventMessage),
    /// The server closed the connection: how a subscription ends.
    Over,
    Failed(ClientError),
    /// That was a stray reply, from a request whose caller stopped waiting: wait
    /// on.
    Again,
}

/// Look at what arrived on a connection that has subscribed.
pub fn next_event(arrived: Arrived) -> (r: Next)
    ensures
        match arrived {
            Arrived::Message(ServerMessage::Event(event)) => r == Next::Event(event),
            Arrived::Message(ServerMessage::Reply { .. }) => r == Next::Again,
            Arrived::Closed => r == Next::Over,
            Arrived::Fault(e) => if frame::is_disconnect_fault(e@) {
                r == Next::Over
            } else {
                r == Next::Failed(ClientError::Io(e))
            },
        },
{
    match arrived {
        Arrived::Message(ServerMessage::Event(event)) => Next::Event(event),
        Arrived::Message(ServerMessage::Reply { .. }) => Next::Again,
        Arrived::Closed => Next::Over,
        Arrived::Fault(e) => if frame::is_disconnect(&e) {
            Next::Over
        } else {
            Next::Failed(ClientError::Io(e))
        },
    }
}

/// What a reply says to a request that adds a download.
pub open spec fn added_reply(reply: ReplyView) -> Result<u64, ClientErrorView> {
    match reply {
        ReplyView::Added { id } => Ok(id),
        other => Err(misfit("added"@, other)),
    }
}

/// What a reply says to a request with nothing to return.
pub open spec fn done_reply(reply: ReplyView) -> Result<(), ClientErrorView> {
    match reply {
        ReplyView::Done => Ok(()),
        other => Err(misfit("done"@, other)),
    }
}

/// What a reply says to a request for the list.
pub open spec fn list_reply(reply: ReplyView) -> Result<Seq<EntryView>, ClientErrorView> {
    match reply {
        ReplyView::List { downloads } => Ok(downloads),
        other => Err(misfit("list"@, other)),
    }
}

/// What a reply says to a request for one row.
pub open spec fn entry_reply(reply: ReplyView) -> Result<Option<EntryView>, ClientErrorView> {
    match reply {
        ReplyView::Entry { download } => Ok(download),
        other => Err(misfit("entry"@, other)),
    }
}

/// The answer to `Add`: the id of the new row.
pub fn added(reply: Reply) -> (r: Result<DownloadId, ClientError>)
    ensures
        match added_reply(reply@) {
            Ok(id) => r == Ok::<DownloadId, ClientError>(id),
            Err(e) => r matches Err(f) && f@ == e,
        },
{
    match reply {
        Reply::Added { id } => Ok(id),
        other => Err(expected("added", other)),
    }
}

/// The answer to a request with nothing to return.
pub fn done(reply: Reply) -> (r: Result<(), ClientError>)
    ensures
        match done_reply(reply@) {
            Ok(_) => r is Ok,
            Err(e) => r matches Err(f) && f@ == e,
        },
{
    match reply {
        Reply::Done => Ok(()),
        other => Err(expected("done", other)),
    }
}

/// The answer to `List` and to `Subscribe`.
pub fn listed(reply: Reply) -> (r: Result<Vec<DownloadEntry>, ClientError>)
    ensures
        match list_reply(reply@) {
            Ok(downloads) => r matches Ok(v) && rows(v@) == downloads,
            Err(e) => r matches Err(f) && f@ == e,
        },
{
    match reply {
        Reply::List { downloads } => Ok(downloads),
        other => Err(expected("list", other)),
    }
}

/// The answer to `Get`.
pub fn entry(reply: Reply) -> (r: Result<Option<DownloadEntry>, ClientError>)
    ensures
        match entry_reply(reply@) {
            Ok(download) => r matches Ok(v) && opt_entry(v) == download,
            Err(e) => r matches Err(f) && f@ == e,
        },
{
    match reply {
        Reply::Entry { download } => Ok(download),
        other => Err(expected("entry", other)),
    }
}

// -------------------------------------------------------------------- client
/// A greeted client: the number of its last request, and what the server said
/// about itself.
pub struct Client {
    seq: u64,
    welcome: Welcome,
}

/// What a client is, mathematically.
#[verifier::ext_equal]
pub struct ClientView {
    pub seq: u64,
    pub welcome: WelcomeView,
}

impl View for Client {
    type V = ClientView;

    closed spec fn view(&self) -> ClientView {
        ClientView { seq: self.seq, welcome: self.welcome@ }
    }
}

/// The first call on a connection.
pub open spec fn hello_call(protocol: u32) -> Call {
    Call { seq: 1, request: Request::Hello { protocol } }
}

/// What a greeting's reply makes of a connection.
pub open spec fn greeted(reply: ReplyView) -> Result<ClientView, ClientErrorView> {
    match reply {
        ReplyView::Welcome { server, .. } => Ok(ClientView { seq: 1, welcome: server }),
        other => Err(misfit("welcome"@, other)),
    }
}

impl Client {
    /// The first call on a connection. Its reply goes to `handshake`.
    pub fn hello() -> (r: Call)
        ensures
            r == hello_call(PROTOCOL_VERSION),
    {
        Call { seq: 1, request: Request::Hello { protocol: PROTOCOL_VERSION } }
    }

    /// Judge the reply to the greeting. A version mismatch has to surface here,
    /// before a caller has made a decision that it cannot take back.
    pub fn handshake(reply: Reply) -> (r: Result<Client, ClientError>)
        ensures
            match greeted(reply@) {
                Ok(client) => r matches Ok(c) && c@ == client,
                Err(e) => r matches Err(f) && f@ == e,
            },
    {
        match reply {
            Reply::Welcome { server, .. } => Ok(Client { seq: 1, welcome: server }),
            other => Err(expected("welcome", other)),
        }
    }

    /// What the server said about itself.
    pub fn server(&self) -> (r: &Welcome)
        ensures
            r@ == self@.welcome,
    {
        &self.welcome
    }

    /// The call that makes a request. Its reply is the one that carries the
    /// call's number.
    pub fn request(&mut self, request: Request) -> (r: Call)
        requires
            old(self)@.seq < u64::MAX,
        ensures
            r == (Call { seq: (old(self)@.seq + 1) as u64, request }),
            final(self)@ == (ClientView { seq: (old(self)@.seq + 1) as u64, ..old(self)@ }),
    {
        self.seq = self.seq + 1;
        Call { seq: self.seq, request }
    }
}

/// The two ends of a fresh connection agree when their versions do, and then the
/// client holds exactly what the server said about itself.
pub proof fn law_matching_versions_connect(
    server: WelcomeView,
    after: bool,
    step: SessionStep,
)
    requires
        is_session_step(
            false,
            Received::Call(hello_call(PROTOCOL_VERSION)),
            server,
            after,
            step,
        ),
    ensures
        after,
        step matches SessionStep::Answer { seq, reply, last } && seq == 1 && !last && greeted(
            reply@,
        ) == Ok::<ClientView, ClientErrorView>(ClientView { seq: 1, welcome: server }),
{
}

/// A client of another version is told so, in words that say what to do about
/// it, and is then let go.
pub proof fn law_a_version_mismatch_is_reported(
    theirs: u32,
    server: WelcomeView,
    after: bool,
    step: SessionStep,
)
    requires
        theirs != PROTOCOL_VERSION,
        is_session_step(false, Received::Call(hello_call(theirs)), server, after, step),
    ensures
        !after,
        step matches SessionStep::Answer { seq, reply, last } && seq == 1 && last && greeted(
            reply@,
        ) == Err::<ClientView, ClientErrorView>(
            ClientErrorView::Refused {
                kind: ErrorKind::VersionMismatch,
                message: mismatch_text(theirs),
            },
        ),
{
}

/// The list answers every request in kind: what a client gets is the result it
/// asked for, or a refusal that says why. It never gets the wrong kind of reply.
pub proof fn law_requests_are_answered_in_kind(
    m: ManagerView,
    request: Request,
    now: u64,
    on_disk: Seq<u64>,
    server: WelcomeView,
)
    ensures
        ({
            let reply = answered(m, request, now, on_disk, server).1.reply;
            match request {
                Request::Hello { .. } => match greeted(reply) {
                    Ok(c) => c.welcome == server,
                    Err(e) => e is Refused,
                },
                Request::Add(_) => match added_reply(reply) {
                    Ok(id) => id == m.next_id,
                    Err(e) => e is Refused,
                },
                Request::Pause { .. } | Request::Resume { .. } | Request::Cancel { .. }
                | Request::Remove { .. } => match done_reply(reply) {
                    Ok(_) => true,
                    Err(e) => e is Refused,
                },
                Request::PauseAll | Request::ResumeAll | Request::ClearFinished => reply is Count,
                Request::List | Request::Subscribe => list_reply(reply) == Ok::<
                    Seq<EntryView>,
                    ClientErrorView,
                >(m.listed()),
                Request::Get { .. } => entry_reply(reply) is Ok,
            }
        }),
{
}

} // verus!
