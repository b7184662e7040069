//! The messages that travel over the pipe.
//!
//! A freshly installed client can and will meet a server from the previous
//! version, so the wire is versioned: a mismatch says "restart" instead of
//! failing to parse. Replies carry the `seq` they answer; pushed events carry
//! none, because they were not asked for.

use vstd::prelude::*;

use crate::error::joined;
use crate::header_list::{sorted, HeaderList};
use crate::manager::{ManagerError, ManagerErrorView};
use crate::model::{rows, DownloadEntry, DownloadId, EntryView, Event, EventView};
use crate::text;

verus! {

/// Bumped only on a breaking change to the shapes in this module.
pub const PROTOCOL_VERSION: u32 = 1;

/// One request, with the sequence number its reply will carry.
#[derive(Debug, Clone, PartialEq, Eq)]
pub struct Call {
    pub seq: u64,
    pub request: Request,
}

/// Everything a client may ask the download list to do.
#[derive(Debug, Clone, PartialEq, Eq)]
pub enum Request {
    /// Must be the first message on a connection. Nothing else is answered until
    /// the versions agree.
    Hello { protocol: u32 },
    Add(AddRequest),
    Pause { id: DownloadId },
    Resume { id: DownloadId },
    Cancel { id: DownloadId },
    Remove {
        id: DownloadId,
        /// Delete the file on disk as well as the row.
        delete_file: bool,
    },
    PauseAll,
    ResumeAll,
    ClearFinished,
    List,
    Get { id: DownloadId },
    /// Start receiving events on this connection. Answered with the list: the
    /// snapshot and the subscription are one request on purpose.
    Subscribe,
}

/// A new download, as a client describes it.
#[derive(Debug, Clone, PartialEq, Eq)]
pub struct AddRequest {
    pub url: String,
    /// `Cookie`, `Referer` and `User-Agent` as the browser saw them.
    pub headers: HeaderList,
    /// Left `None` so the engine can derive the name.
    pub filename: Option<String>,
    /// Set only when the user picked a folder.
    pub target_dir: Option<String>,
    /// Separate audio stream URL for adaptive formats.
    pub audio_url: Option<String>,
}

impl AddRequest {
    /// A request for a URL and nothing else.
    pub fn new(url: &str) -> (r: AddRequest)
        ensures
            r.url@ == url@,
            r.headers@.len() == 0,
            sorted(r.headers@),
            r.filename is None,
            r.target_dir is None,
            r.audio_url is None,
    {
        AddRequest {
            url: url.to_owned(),
            headers: HeaderList::new(),
            filename: None,
            target_dir: None,
            audio_url: None,
        }
    }
}

/// Anything the server sends.
#[derive(Debug, Clone, PartialEq, Eq)]
pub enum ServerMessage {
    Reply { seq: u64, reply: Reply },
    /// Unsolicited. Only sent after a successful subscription.
    Event(EventMessage),
}

/// What a client needs in order to describe the running app without guessing.
#[derive(Debug, Clone, PartialEq, Eq)]
pub struct Welcome {
    pub version: String,
    /// Which process owns the list.
    pub pid: u32,
    pub download_root: String,
    pub temp_dir: String,
    pub use_temp_dir: bool,
    pub max_active: usize,
    pub max_connections: u32,
}

/// What a server's description is, mathematically.
#[verifier::ext_equal]
pub struct WelcomeView {
    pub version: Seq<char>,
    pub pid: u32,
    pub download_root: Seq<char>,
    pub temp_dir: Seq<char>,
    pub use_temp_dir: bool,
    pub max_active: int,
    pub max_connections: u32,
}

impl View for Welcome {
    type V = WelcomeView;

    open spec fn view(&self) -> WelcomeView {
        WelcomeView {
            version: self.version@,
            pid: self.pid,
            download_root: self.download_root@,
            temp_dir: self.temp_dir@,
            use_temp_dir: self.use_temp_dir,
            max_active: self.max_active as int,
            max_connections: self.max_connections,
        }
    }
}

impl Welcome {
    /// A copy of this description.
    pub fn copied(&self) -> (r: Welcome)
        ensures
            r@ == self@,
    {
        Welcome {
            version: self.version.clone(),
            pid: self.pid,
            download_root: self.download_root.clone(),
            temp_dir: self.temp_dir.clone(),
            use_temp_dir: self.use_temp_dir,
            max_active: self.max_active,
            max_connections: self.max_connections,
        }
    }
}

#[derive(Debug, Clone, PartialEq, Eq)]
pub enum Reply {
    /// Answer to `Hello`.
    Welcome { protocol: u32, server: Welcome },
    Added { id: DownloadId },
    /// Acknowledgement for a request with nothing to return.
    Done,
    /// How many rows a bulk request touched.
    Count { n: usize },
    List { downloads: Vec<DownloadEntry> },
    /// `None` rather than an error: "is this download still in the list?" is a
    /// question, and `None` is a legitimate answer to it.
    Entry { download: Option<DownloadEntry> },
    Error {
        kind: ErrorKind,
        /// Already human-readable. A client may show it verbatim.
        message: String,
    },
}

/// Why a request failed, in the coarse categories a caller can actually act on.
#[derive(Debug, Clone, Copy, PartialEq, Eq, Structural)]
pub enum ErrorKind {
    /// The two halves of the app are from different builds.
    VersionMismatch,
    /// A request arrived before `Hello`.
    NotReady,
    NotFound,
    /// The row exists but is in the wrong state.
    WrongState,
    /// The request itself was unusable.
    Invalid,
    Internal,
}

/// What a reply is, mathematically.
#[verifier::ext_equal]
pub enum ReplyView {
    Welcome { protocol: u32, server: WelcomeView },
    Added { id: u64 },
    Done,
    Count { n: int },
    List { downloads: Seq<EntryView> },
    Entry { download: Option<EntryView> },
    Error { kind: ErrorKind, message: Seq<char> },
}

/// What an optional row is.
pub open spec fn opt_entry(v: Option<DownloadEntry>) -> Option<EntryView> {
    match v {
        Some(e) => Some(e@),
        None => None,
    }
}

impl View for Reply {
    type V = ReplyView;

    open spec fn view(&self) -> ReplyView {
        match self {
            Reply::Welcome { protocol, server } => ReplyView::Welcome {
                protocol: *protocol,
                server: server@,
            },
            Reply::Added { id } => ReplyView::Added { id: *id },
            Reply::Done => ReplyView::Done,
            Reply::Count { n } => ReplyView::Count { n: *n as int },
            Reply::List { downloads } => ReplyView::List { downloads: rows(downloads@) },
            Reply::Entry { download } => ReplyView::Entry { download: opt_entry(*download) },
            Reply::Error { kind, message } => ReplyView::Error { kind: *kind, message: message@ },
        }
    }
}

/// The category of a refusal by the list.
pub open spec fn error_kind(e: ManagerErrorView) -> ErrorKind {
    match e {
        ManagerErrorView::NotFound(_) => ErrorKind::NotFound,
        ManagerErrorView::WrongState { .. } => ErrorKind::WrongState,
        ManagerErrorView::BadUrl { .. } => ErrorKind::Invalid,
    }
}

/// The answer to a client of another version.
pub open spec fn mismatch_text(theirs: u32) -> Seq<char> {
    "This copy of FDM speaks IPC v"@ + text::decimal(PROTOCOL_VERSION as nat)
        + " but the running FDM speaks v"@ + text::decimal(theirs as nat)
        + ". Quit FDM from its tray icon and start it again — the installer replaced the program while the old one was still running."@
}

impl Reply {
    pub fn error(kind: ErrorKind, message: &str) -> (r: Reply)
        ensures
            r@ == (ReplyView::Error { kind, message: message@ }),
    {
        Reply::Error { kind, message: message.to_owned() }
    }

    pub fn version_mismatch(theirs: u32) -> (r: Reply)
        ensures
            r@ == (ReplyView::Error {
                kind: ErrorKind::VersionMismatch,
                message: mismatch_text(theirs),
            }),
    {
        let mut m = joined(
            "This copy of FDM speaks IPC v",
            text::decimal_of(PROTOCOL_VERSION as u64).as_str(),
        );
        m.append(" but the running FDM speaks v");
        m.append(text::decimal_of(theirs as u64).as_str());
        m.append(
            ". Quit FDM from its tray icon and start it again — the installer replaced the program while the old one was still running.",
        );
        Reply::Error { kind: ErrorKind::VersionMismatch, message: m }
    }

    /// A refusal by the list, as a reply.
    pub fn refusal(e: &ManagerError) -> (r: Reply)
        ensures
            r@ == (ReplyView::Error { kind: error_kind(e@), message: e@.message() }),
    {
        let kind: ErrorKind = match e {
            ManagerError::NotFound(_) => ErrorKind::NotFound,
            ManagerError::WrongState { .. } => ErrorKind::WrongState,
            // A bad row rather than a bad request, but the caller's options are
            // the same either way: report it and stop.
            ManagerError::BadUrl { .. } => ErrorKind::Invalid,
        };
        Reply::Error { kind, message: e.message() }
    }
}

/// The list changed.
#[derive(Debug, Clone, PartialEq, Eq)]
pub enum EventMessage {
    Added(DownloadEntry),
    Changed(DownloadEntry),
    Removed { id: DownloadId },
    /// The server fell behind this client and dropped events, so it is sending
    /// the whole list instead. Replace local state with this wholesale.
    Resync { downloads: Vec<DownloadEntry> },
}

/// What a pushed event is, mathematically.
#[verifier::ext_equal]
pub enum EventMessageView {
    Added(EntryView),
    Changed(EntryView),
    Removed { id: u64 },
    Resync { downloads: Seq<EntryView> },
}

impl View for EventMessage {
    type V = EventMessageView;

    open spec fn view(&self) -> EventMessageView {
        match self {
            EventMessage::Added(e) => EventMessageView::Added(e@),
            EventMessage::Changed(e) => EventMessageView::Changed(e@),
            EventMessage::Removed { id } => EventMessageView::Removed { id: *id },
            EventMessage::Resync { downloads } => EventMessageView::Resync {
                downloads: rows(downloads@),
            },
        }
    }
}

/// An event of the list, as it is pushed.
pub open spec fn pushed(e: EventView) -> EventMessageView {
    match e {
        EventView::Added(r) => EventMessageView::Added(r),
        EventView::Changed(r) => EventMessageView::Changed(r),
        EventView::Removed(id) => EventMessageView::Removed { id },
    }
}

impl EventMessage {
    /// An event of the list, as it is pushed.
    pub fn of(e: Event) -> (r: EventMessage)
        ensures
            r@ == pushed(e@),
    {
        match e {
            Event::Added(entry) => EventMessage::Added(entry),
            Event::Changed(entry) => EventMessage::Changed(entry),
            Event::Removed(id) => EventMessage::Removed { id },
        }
    }
}

} // verus!
