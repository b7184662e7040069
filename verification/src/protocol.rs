//! The messages exchanged with the browser extension.
//!
//! A private protocol between two halves of one product, versioned rather than
//! negotiated: the two halves update through separate channels, so they will be
//! out of step on some machines, and a mismatch has to say so.

use vstd::prelude::*;

use crate::error::joined;
use crate::header_list::HeaderList;
use crate::naming::opt_text;
use crate::text;

verus! {

/// Bumped only on a breaking change to the shapes in this module.
pub const PROTOCOL_VERSION: u32 = 1;

/// What the extension may say.
#[derive(Debug, Clone, PartialEq, Eq)]
pub enum Incoming {
    /// Liveness and version check.
    Ping { id: Option<u64>, protocol: Option<u32> },
    /// Take over a download the extension cancelled in the browser.
    Download(DownloadCommand),
    /// Stop a running download. What was fetched stays, so it resumes rather
    /// than restarts.
    Cancel { id: u64 },
    /// Everything currently running in this process.
    Status { id: Option<u64> },
}

/// A download to take over.
#[derive(Debug, Clone, PartialEq, Eq)]
pub struct DownloadCommand {
    /// Chosen by the extension and echoed on every reply.
    pub id: u64,
    pub url: String,
    /// Cookie, Referer and User-Agent, captured by the extension. Without these
    /// a download behind a login fetches the login page.
    pub headers: HeaderList,
    /// The name the browser had already resolved, when it had one.
    pub filename: Option<String>,
    /// Total size, when the browser knew it. Advisory only, never used to size
    /// the file.
    pub total_bytes: Option<u64>,
    /// Override the download root.
    pub target_dir: Option<String>,
    /// Separate audio stream URL for adaptive streams.
    pub audio_url: Option<String>,
    pub protocol: Option<u32>,
}

/// What a command is, mathematically.
#[verifier::ext_equal]
pub struct CommandView {
    pub id: u64,
    pub url: Seq<char>,
    pub headers: Seq<(Seq<char>, Seq<char>)>,
    pub filename: Option<Seq<char>>,
    pub total_bytes: Option<u64>,
    pub target_dir: Option<Seq<char>>,
    pub audio_url: Option<Seq<char>>,
    pub protocol: Option<u32>,
}

impl View for DownloadCommand {
    type V = CommandView;

    open spec fn view(&self) -> CommandView {
        CommandView {
            id: self.id,
            url: self.url@,
            headers: self.headers@,
            filename: opt_text(self.filename),
            total_bytes: self.total_bytes,
            target_dir: opt_text(self.target_dir),
            audio_url: opt_text(self.audio_url),
            protocol: self.protocol,
        }
    }
}

/// What the extension is told.
#[derive(Debug, Clone, PartialEq, Eq)]
pub enum Outgoing {
    /// Reply to `Ping`, with what a support conversation needs.
    Pong {
        id: Option<u64>,
        protocol: u32,
        version: String,
        host_path: String,
        download_root: String,
        max_connections: u32,
        categories: Vec<&'static str>,
    },
    /// The download is taken over: the extension may forget the one it cancelled.
    Accepted { id: u64, url: String },
    Progress {
        id: u64,
        downloaded: u64,
        total: Option<u64>,
        /// Bytes per second, as the bits of a double.
        speed_bits: u64,
        eta_seconds: Option<u64>,
        segments: u32,
        active_connections: u32,
    },
    Completed {
        id: u64,
        path: String,
        bytes: u64,
        elapsed_ms: u64,
        category: String,
        segments: u32,
        resumed: bool,
        used_ranges: bool,
    },
    /// A download stopped without finishing. `resumable` tells "press resume"
    /// from "this will never work".
    Failed { id: u64, message: String, resumable: bool },
    Cancelled { id: u64 },
    Status { id: Option<u64>, active: Vec<u64> },
    /// A malformed or unsupported message.
    Error {
        id: Option<u64>,
        message: String,
        /// Set when the two halves are on incompatible versions.
        version_mismatch: bool,
    },
}

/// What such a message is, mathematically.
#[verifier::ext_equal]
pub enum OutgoingView {
    Pong {
        id: Option<u64>,
        protocol: u32,
        version: Seq<char>,
        host_path: Seq<char>,
        download_root: Seq<char>,
        max_connections: u32,
        categories: Seq<Seq<char>>,
    },
    Accepted { id: u64, url: Seq<char> },
    Progress {
        id: u64,
        downloaded: u64,
        total: Option<u64>,
        speed_bits: u64,
        eta_seconds: Option<u64>,
        segments: u32,
        active_connections: u32,
    },
    Completed {
        id: u64,
        path: Seq<char>,
        bytes: u64,
        elapsed_ms: u64,
        category: Seq<char>,
        segments: u32,
        resumed: bool,
        used_ranges: bool,
    },
    Failed { id: u64, message: Seq<char>, resumable: bool },
    Cancelled { id: u64 },
    Status { id: Option<u64>, active: Seq<u64> },
    Error { id: Option<u64>, message: Seq<char>, version_mismatch: bool },
}

impl View for Outgoing {
    type V = OutgoingView;

    open spec fn view(&self) -> OutgoingView {
        match self {
            Outgoing::Pong {
                id,
                protocol,
                version,
                host_path,
                download_root,
                max_connections,
                categories,
            } => OutgoingView::Pong {
                id: *id,
                protocol: *protocol,
                version: version@,
                host_path: host_path@,
                download_root: download_root@,
                max_connections: *max_connections,
                categories: text::literals(categories@),
            },
            Outgoing::Accepted { id, url } => OutgoingView::Accepted { id: *id, url: url@ },
            Outgoing::Progress {
                id,
                downloaded,
                total,
                speed_bits,
                eta_seconds,
                segments,
                active_connections,
            } => OutgoingView::Progress {
                id: *id,
                downloaded: *downloaded,
                total: *total,
                speed_bits: *speed_bits,
                eta_seconds: *eta_seconds,
                segments: *segments,
                active_connections: *active_connections,
            },
            Outgoing::Completed {
                id,
                path,
                bytes,
                elapsed_ms,
                category,
                segments,
                resumed,
                used_ranges,
            } => OutgoingView::Completed {
                id: *id,
                path: path@,
                bytes: *bytes,
                elapsed_ms: *elapsed_ms,
                category: category@,
                segments: *segments,
                resumed: *resumed,
                used_ranges: *used_ranges,
            },
            Outgoing::Failed { id, message, resumable } => OutgoingView::Failed {
                id: *id,
                message: message@,
                resumable: *resumable,
            },
            Outgoing::Cancelled { id } => OutgoingView::Cancelled { id: *id },
            Outgoing::Status { id, active } => OutgoingView::Status { id: *id, active: active@ },
            Outgoing::Error { id, message, version_mismatch } => OutgoingView::Error {
                id: *id,
                message: message@,
                version_mismatch: *version_mismatch,
            },
        }
    }
}

impl OutgoingView {
    /// An ordinary error.
    pub open spec fn error(id: Option<u64>, message: Seq<char>) -> OutgoingView {
        OutgoingView::Error { id, message, version_mismatch: false }
    }

    /// The answer to an extension of another version.
    pub open spec fn version_mismatch(id: Option<u64>, theirs: u32) -> OutgoingView {
        OutgoingView::Error {
            id,
            message: "The FDM extension speaks protocol v"@ + text::decimal(theirs as nat)
                + " but this copy of FDM speaks v"@ + text::decimal(PROTOCOL_VERSION as nat)
                + ". Update whichever is older: the extension from the Chrome Web Store, or FDM itself from its installer."@,
            version_mismatch: true,
        }
    }
}

impl Outgoing {
    pub fn error(id: Option<u64>, message: &str) -> (r: Outgoing)
        ensures
            r@ == OutgoingView::error(id, message@),
    {
        Outgoing::Error { id, message: message.to_owned(), version_mismatch: false }
    }

    pub fn version_mismatch(id: Option<u64>, theirs: u32) -> (r: Outgoing)
        ensures
            r@ == OutgoingView::version_mismatch(id, theirs),
    {
        let mut m = joined(
            "The FDM extension speaks protocol v",
            text::decimal_of(theirs as u64).as_str(),
        );
        m.append(" but this copy of FDM speaks v");
        m.append(text::decimal_of(PROTOCOL_VERSION as u64).as_str());
        m.append(
            ". Update whichever is older: the extension from the Chrome Web Store, or FDM itself from its installer.",
        );
        Outgoing::Error { id, message: m, version_mismatch: true }
    }

    /// The answer to a message that does not parse, given the id that could be
    /// recovered from it.
    pub fn unreadable(id: Option<u64>, reason: &str) -> (r: Outgoing)
        ensures
            r@ == OutgoingView::error(id, "unreadable message: "@ + reason@),
    {
        let m = joined("unreadable message: ", reason);
        Outgoing::Error { id, message: m, version_mismatch: false }
    }
}

// ------------------------------------------------------------------- recovery
/// The unsigned number under a key of a JSON object; none where the bytes are not
/// JSON, not an object, or hold no such number.
pub uninterp spec fn json_number(raw: Seq<u8>, key: Seq<char>) -> Option<u64>;

/// `serde_json::from_slice` into a `serde_json::Value`, then `Value::get` and
/// `Value::as_u64`: the number is a function of the bytes and the key. Which bytes
/// are JSON is left to the parser.
#[verifier::external_body]
pub(crate) fn number_in(raw: &[u8], key: &str) -> (r: Option<u64>)
    ensures
        r == json_number(raw@, key@),
{
    match serde_json::from_slice::<serde_json::Value>(raw) {
        Ok(value) => match value.get(key) {
            Some(found) => found.as_u64(),
            None => None,
        },
        Err(_) => None,
    }
}

/// Answer a message that does not parse. The id is recovered from it if it can
/// be, so that the extension fails one row rather than taking the whole host for
/// broken.
pub fn answer_unreadable(raw: &[u8], reason: &str) -> (r: Outgoing)
    ensures
        r@ == OutgoingView::error(
            json_number(raw@, "id"@),
            "unreadable message: "@ + reason@,
        ),
{
    Outgoing::unreadable(number_in(raw, "id"), reason)
}

} // verus!
