//! The shape of a row in the download list.
//!
//! The same shape is persisted, pushed to the desktop UI and returned from the
//! list itself, so the UI cannot drift from what was saved.

use reqwest::header::HeaderMap;
use vstd::prelude::*;

use crate::categorize::Category;
use crate::headers;
use crate::link::Link;
use crate::naming::{opt_text, FilePath, PathView};
use crate::state::copy_opt;

verus! {

pub type DownloadId = u64;

/// Where a download is in its life.
#[derive(Debug, Clone, Copy, PartialEq, Eq, Structural)]
pub enum Status {
    /// Accepted, waiting for a concurrency slot.
    Queued,
    /// Probing. The destination is not known yet, so the row has no filename.
    Connecting,
    /// Bytes are moving.
    Downloading,
    /// Stopped by the user, scratch files intact, resumable.
    Paused,
    Completed,
    /// Stopped by an error. Usually resumable.
    Failed,
    /// Stopped by the user, scratch files deleted. Resuming starts over.
    Cancelled,
}

impl Status {
    pub open spec fn active(self) -> bool {
        self == Status::Queued || self == Status::Connecting || self == Status::Downloading
    }

    pub open spec fn finished(self) -> bool {
        self == Status::Completed || self == Status::Failed || self == Status::Cancelled
    }

    /// The status as it is named in messages.
    pub open spec fn name(self) -> Seq<char> {
        match self {
            Status::Queued => "Queued"@,
            Status::Connecting => "Connecting"@,
            Status::Downloading => "Downloading"@,
            Status::Paused => "Paused"@,
            Status::Completed => "Completed"@,
            Status::Failed => "Failed"@,
            Status::Cancelled => "Cancelled"@,
        }
    }

    /// True while the manager owns a running task for this download.
    pub fn is_active(self) -> (r: bool)
        ensures
            r == self.active(),
    {
        match self {
            Status::Queued | Status::Connecting | Status::Downloading => true,
            _ => false,
        }
    }

    /// True when there is nothing left to do and no task is running.
    pub fn is_finished(self) -> (r: bool)
        ensures
            r == self.finished(),
    {
        match self {
            Status::Completed | Status::Failed | Status::Cancelled => true,
            _ => false,
        }
    }

    /// The status as it is named in messages.
    pub fn label(self) -> (r: &'static str)
        ensures
            r@ == self.name(),
    {
        match self {
            Status::Queued => "Queued",
            Status::Connecting => "Connecting",
            Status::Downloading => "Downloading",
            Status::Paused => "Paused",
            Status::Completed => "Completed",
            Status::Failed => "Failed",
            Status::Cancelled => "Cancelled",
        }
    }
}

/// A row is at work, at rest, or over: active, finished, or paused, and never
/// two of these.
pub proof fn law_status_is_one_of_three(s: Status)
    ensures
        s.active() || s.finished() || s == Status::Paused,
        !(s.active() && s.finished()),
        !(Status::Paused.active() || Status::Paused.finished()),
{
}

/// One download, as the UI sees it.
#[derive(Debug, Clone, PartialEq, Eq)]
pub struct DownloadEntry {
    pub id: DownloadId,
    pub url: String,
    /// Best name known so far. Taken from the request if it supplied one, else
    /// from the URL, then replaced with the engine's real choice once the probe
    /// has read `Content-Disposition`.
    pub filename: String,
    /// Final destination. `None` until the engine resolves it.
    pub path: Option<FilePath>,
    pub status: Status,
    /// `None` when the server did not send a length.
    pub total: Option<u64>,
    pub downloaded: u64,
    /// Transfer rate in bytes per second, as the bits of a double.
    pub speed_bits: u64,
    pub eta_secs: Option<u64>,
    pub segments: u32,
    pub active_connections: u32,
    pub category: Option<Category>,
    /// Human-readable reason this failed. Set only alongside `Status::Failed`.
    pub error: Option<String>,
    /// True when stopping and starting again would continue rather than restart.
    pub resumable: bool,
    pub added_at: u64,
    pub finished_at: Option<u64>,
}

/// What a row is, mathematically.
#[verifier::ext_equal]
pub struct EntryView {
    pub id: u64,
    pub url: Seq<char>,
    pub filename: Seq<char>,
    pub path: Option<PathView>,
    pub status: Status,
    pub total: Option<u64>,
    pub downloaded: u64,
    pub speed_bits: u64,
    pub eta_secs: Option<u64>,
    pub segments: u32,
    pub active_connections: u32,
    pub category: Option<Category>,
    pub error: Option<Seq<char>>,
    pub resumable: bool,
    pub added_at: u64,
    pub finished_at: Option<u64>,
}

/// What an optional path is.
pub open spec fn opt_path(v: Option<FilePath>) -> Option<PathView> {
    match v {
        Some(p) => Some(p@),
        None => None,
    }
}

/// A copy of an optional path.
pub fn copy_path(v: &Option<FilePath>) -> (r: Option<FilePath>)
    ensures
        opt_path(r) == opt_path(*v),
{
    match v {
        Some(p) => Some(p.copied()),
        None => None,
    }
}

impl View for DownloadEntry {
    type V = EntryView;

    open spec fn view(&self) -> EntryView {
        EntryView {
            id: self.id,
            url: self.url@,
            filename: self.filename@,
            path: opt_path(self.path),
            status: self.status,
            total: self.total,
            downloaded: self.downloaded,
            speed_bits: self.speed_bits,
            eta_secs: self.eta_secs,
            segments: self.segments,
            active_connections: self.active_connections,
            category: self.category,
            error: opt_text(self.error),
            resumable: self.resumable,
            added_at: self.added_at,
            finished_at: self.finished_at,
        }
    }
}

impl EntryView {
    /// A row that was just added.
    pub open spec fn fresh(id: u64, url: Seq<char>, filename: Seq<char>, now: u64) -> EntryView {
        EntryView {
            id,
            url,
            filename,
            path: None,
            status: Status::Queued,
            total: None,
            downloaded: 0,
            speed_bits: 0,
            eta_secs: None,
            segments: 0,
            active_connections: 0,
            category: None,
            error: None,
            resumable: false,
            added_at: now,
            finished_at: None,
        }
    }

    /// The row with no transfer going on: no speed, no estimate, no connections.
    pub open spec fn idle(self) -> EntryView {
        EntryView { speed_bits: 0, eta_secs: None, active_connections: 0, ..self }
    }

    /// Whether the row gives a reason for a failure only if it failed.
    pub open spec fn error_fits(self) -> bool {
        self.error is Some ==> self.status == Status::Failed
    }
}

impl DownloadEntry {
    /// A row that was just added, at `now` seconds since the epoch.
    pub fn new(id: DownloadId, url: &str, filename: String, now: u64) -> (r: DownloadEntry)
        ensures
            r@ == EntryView::fresh(id, url@, filename@, now),
    {
        DownloadEntry {
            id,
            url: url.to_owned(),
            filename,
            path: None,
            status: Status::Queued,
            total: None,
            downloaded: 0,
            speed_bits: 0,
            eta_secs: None,
            segments: 0,
            active_connections: 0,
            category: None,
            error: None,
            resumable: false,
            added_at: now,
            finished_at: None,
        }
    }

    /// A copy of this row.
    pub fn copied(&self) -> (r: DownloadEntry)
        ensures
            r@ == self@,
    {
        DownloadEntry {
            id: self.id,
            url: self.url.clone(),
            filename: self.filename.clone(),
            path: copy_path(&self.path),
            status: self.status,
            total: self.total,
            downloaded: self.downloaded,
            speed_bits: self.speed_bits,
            eta_secs: self.eta_secs,
            segments: self.segments,
            active_connections: self.active_connections,
            category: self.category,
            error: copy_opt(&self.error),
            resumable: self.resumable,
            added_at: self.added_at,
            finished_at: self.finished_at,
        }
    }

    /// No transfer is going on any more.
    pub fn set_idle(&mut self)
        ensures
            final(self)@ == old(self)@.idle(),
    {
        self.speed_bits = 0;
        self.eta_secs = None;
        self.active_connections = 0;
    }
}

/// What a list of rows is.
pub open spec fn rows(v: Seq<DownloadEntry>) -> Seq<EntryView> {
    v.map_values(|e: DownloadEntry| e@)
}

/// What the UI or the browser bridge adds to the list.
#[derive(Debug)]
pub struct NewDownload {
    pub url: Link,
    /// Cookies, referer and user-agent from the browser. Held in memory for the
    /// life of the process and deliberately never persisted.
    pub headers: HeaderMap,
    pub filename: Option<String>,
    /// Set only when the user picked a folder. Leaving it `None` is what makes
    /// the engine sort by category.
    pub target_dir: Option<String>,
    /// Separate audio stream URL for adaptive formats.
    pub audio_url: Option<String>,
}

impl NewDownload {
    pub fn new(url: Link) -> (r: NewDownload)
        ensures
            r.url == url,
            headers::entries(r.headers) == headers::no_entries(),
            r.filename is None,
            r.target_dir is None,
            r.audio_url is None,
    {
        NewDownload {
            url,
            headers: headers::map_with_capacity(0),
            filename: None,
            target_dir: None,
            audio_url: None,
        }
    }

    pub fn with_headers(self, headers: HeaderMap) -> (r: NewDownload)
        ensures
            r == (NewDownload { headers, ..self }),
    {
        NewDownload { headers, ..self }
    }

    pub fn with_filename(self, name: String) -> (r: NewDownload)
        ensures
            r == (NewDownload { filename: Some(name), ..self }),
    {
        NewDownload { filename: Some(name), ..self }
    }

    pub fn with_target_dir(self, dir: String) -> (r: NewDownload)
        ensures
            r == (NewDownload { target_dir: Some(dir), ..self }),
    {
        NewDownload { target_dir: Some(dir), ..self }
    }

    pub fn with_audio_url(self, url: String) -> (r: NewDownload)
        ensures
            r == (NewDownload { audio_url: Some(url), ..self }),
    {
        NewDownload { audio_url: Some(url), ..self }
    }
}

/// Pushed to every subscriber whenever the list changes.
///
/// `Changed` carries the whole row rather than a delta: a subscriber that missed
/// a message still ends up correct.
#[derive(Debug, Clone, PartialEq, Eq)]
pub enum Event {
    Added(DownloadEntry),
    Changed(DownloadEntry),
    Removed(DownloadId),
}

/// What an event is, mathematically.
#[verifier::ext_equal]
pub enum EventView {
    Added(EntryView),
    Changed(EntryView),
    Removed(u64),
}

impl View for Event {
    type V = EventView;

    open spec fn view(&self) -> EventView {
        match self {
            Event::Added(e) => EventView::Added(e@),
            Event::Changed(e) => EventView::Changed(e@),
            Event::Removed(id) => EventView::Removed(*id),
        }
    }
}

} // verus!
