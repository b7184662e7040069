//! Download orchestration: every decision the engine takes.
//!
//! The coordinator owns the segment plan and a fixed pool of connections. When a
//! worker finishes its range, the coordinator hands it either a leftover segment
//! or the back half of whatever segment currently has the most work left.
//!
//! Two invariants are load-bearing:
//!
//! 1. `done` only advances after bytes are durably written. A crash therefore
//!    resumes from a byte offset that is genuinely on disk, never ahead of it.
//! 2. A ranged request that comes back anything other than `206` aborts the
//!    whole strategy. Writing a full-resource body at a segment offset yields a
//!    file of exactly the right size that is silently wrong.

use reqwest::header::HeaderMap;
use vstd::prelude::*;
use vstd::slice::slice_subrange;

use crate::categorize;
use crate::categorize::Category;
use crate::config::EngineConfig;
use crate::error::{joined, Error, ErrorView, HttpFault, IoFault, IoFaultView, IoKind};
use crate::headers;
use crate::link::Link;
use crate::naming;
use crate::naming::{opt_text, FilePath, PathView};
use crate::plan;
use crate::plan::{Plan, PlanView, Segment, SegmentView};
use crate::probe;
use crate::probe::{RemoteInfo, RemoteInfoView};
use crate::scratch;
use crate::state;
use crate::state::{copy_opt, DownloadState, StateView};
use crate::text;

verus! {

// ---------------------------------------------------------------------- types
/// Cooperative cancellation: once tripped, it stays tripped. There is one token
/// to a download and no copy of it: whoever has to see it tripped shares the
/// token itself.
#[derive(Debug, PartialEq, Eq, Structural)]
pub struct CancelToken {
    cancelled: bool,
}

impl View for CancelToken {
    type V = bool;

    closed spec fn view(&self) -> bool {
        self.cancelled
    }
}

impl CancelToken {
    pub fn new() -> (r: CancelToken)
        ensures
            !r@,
    {
        CancelToken { cancelled: false }
    }

    pub fn cancel(&mut self)
        ensures
            final(self)@,
    {
        self.cancelled = true;
    }

    pub fn is_cancelled(&self) -> (r: bool)
        ensures
            r == self@,
    {
        self.cancelled
    }
}

/// What the caller asks for.
#[derive(Debug)]
pub struct DownloadRequest {
    pub url: Link,
    /// Headers handed over by the browser: cookies, referer, user-agent.
    /// Mandatory for anything behind a login.
    pub headers: HeaderMap,
    /// Override the derived filename.
    pub filename: Option<String>,
    /// Override the destination folder, bypassing type-based organisation.
    pub target_dir: Option<String>,
}

impl DownloadRequest {
    pub fn new(url: Link) -> (r: DownloadRequest)
        ensures
            r.url == url,
            headers::entries(r.headers) == headers::no_entries(),
            r.filename is None,
            r.target_dir is None,
    {
        DownloadRequest {
            url,
            headers: headers::map_with_capacity(0),
            filename: None,
            target_dir: None,
        }
    }

    pub fn with_headers(self, headers: HeaderMap) -> (r: DownloadRequest)
        ensures
            r == (DownloadRequest { headers, ..self }),
    {
        DownloadRequest { headers, ..self }
    }

    pub fn with_filename(self, filename: String) -> (r: DownloadRequest)
        ensures
            r == (DownloadRequest { filename: Some(filename), ..self }),
    {
        DownloadRequest { filename: Some(filename), ..self }
    }

    pub fn with_target_dir(self, dir: String) -> (r: DownloadRequest)
        ensures
            r == (DownloadRequest { target_dir: Some(dir), ..self }),
    {
        DownloadRequest { target_dir: Some(dir), ..self }
    }
}

/// What the engine decided, reported once the destination is known and before
/// any bytes move.
#[derive(Debug, Clone, PartialEq, Eq)]
pub struct StartInfo {
    /// Where the finished file will land. Already de-duplicated, so this is the
    /// real path, not a candidate.
    pub target: FilePath,
    /// The `.part` file that receives the bytes.
    pub part: FilePath,
    /// The `.fdm` control file that makes the download resumable.
    pub control: FilePath,
    pub total: Option<u64>,
    /// True when an existing control file was adopted instead of starting over.
    pub resumed: bool,
    pub used_ranges: bool,
    pub category: Category,
}

/// What a finished download comes to.
#[derive(Debug, Clone, PartialEq, Eq)]
pub struct DownloadOutcome {
    pub path: FilePath,
    pub bytes: u64,
    pub elapsed_ms: u64,
    /// Total segments the plan ended up with, including ones created by
    /// mid-transfer splits.
    pub segments_used: u32,
    pub category: Category,
    pub resumed: bool,
    pub used_ranges: bool,
}

// ---------------------------------------------------------------- destination
/// A directory: a base, and a category's folder in it where there is one.
#[derive(Debug, Clone, PartialEq, Eq)]
pub struct Place {
    pub base: String,
    pub folder: Option<Category>,
}

/// What a place is, mathematically.
#[verifier::ext_equal]
pub struct PlaceView {
    pub base: Seq<char>,
    pub folder: Option<Category>,
}

impl View for Place {
    type V = PlaceView;

    open spec fn view(&self) -> PlaceView {
        PlaceView { base: self.base@, folder: self.folder }
    }
}

/// The filename of a download.
pub open spec fn chosen_name(wanted: Option<Seq<char>>, info: RemoteInfoView) -> Seq<char> {
    match wanted {
        Some(name) => naming::sanitized(name),
        None => info.filename,
    }
}

/// The filename of a download: the caller's, made safe, or the server's.
pub fn choose_filename(wanted: Option<&str>, info: &RemoteInfo) -> (r: String)
    ensures
        r@ == chosen_name(
            match wanted {
                Some(name) => Some(name@),
                None => None,
            },
            info@,
        ),
{
    match wanted {
        Some(name) => naming::sanitize_filename(name),
        None => info.filename.clone(),
    }
}

/// Where a download of this category goes: where the caller said, else under the
/// root, sorted by category if that is wanted.
pub open spec fn destination(
    root: Seq<char>,
    by_type: bool,
    target_dir: Option<Seq<char>>,
    category: Category,
) -> PlaceView {
    match target_dir {
        Some(dir) => PlaceView { base: dir, folder: None },
        None => PlaceView {
            base: root,
            folder: if by_type {
                Some(category)
            } else {
                None
            },
        },
    }
}

pub fn destination_dir(cfg: &EngineConfig, target_dir: &Option<String>, category: Category) -> (r:
    Place)
    ensures
        r@ == destination(
            cfg.download_root@,
            cfg.organize_by_type,
            opt_text(*target_dir),
            category,
        ),
{
    match target_dir {
        Some(dir) => Place { base: dir.clone(), folder: None },
        None => Place {
            base: cfg.download_root.clone(),
            folder: if cfg.organize_by_type {
                Some(category)
            } else {
                None
            },
        },
    }
}

/// Where partial data goes: in the temp directory under a name derived from the
/// download's identity, or beside the finished file.
pub open spec fn partial_path(
    temp_dir: Seq<char>,
    use_temp_dir: bool,
    url: Seq<char>,
    dir: Seq<char>,
    filename: Seq<char>,
    target: PathView,
) -> PathView {
    if use_temp_dir {
        PathView { dir: temp_dir, name: scratch::part_name(url, dir, filename) }
    } else {
        PathView { dir: target.dir, name: target.name + ".part"@ }
    }
}

/// `dir` and `filename` are the intended destination; `target` is the
/// de-duplicated one.
pub fn choose_part_path(
    cfg: &EngineConfig,
    url: &str,
    dir: &str,
    filename: &str,
    target: &FilePath,
) -> (r: FilePath)
    ensures
        r@ == partial_path(cfg.temp_dir@, cfg.use_temp_dir, url@, dir@, filename@, target@),
{
    if cfg.use_temp_dir {
        scratch::part_path(cfg.temp_dir.as_str(), url, dir, filename)
    } else {
        FilePath {
            dir: target.dir.clone(),
            name: joined(target.name.as_str(), ".part"),
        }
    }
}

// -------------------------------------------------------------- fresh or resume
/// How a download starts.
pub struct Start {
    pub plan: Plan,
    /// True when the saved state was adopted.
    pub resumed: bool,
    /// True when partial data from an earlier attempt has to go first.
    pub discard: bool,
}

/// Whether saved state is adopted: ranges are in use, the state fits what the
/// server serves now, and the bytes it speaks of are there.
pub open spec fn adopts(
    use_ranges: bool,
    url: Seq<char>,
    info: RemoteInfoView,
    saved: Option<StateView>,
    part_exists: bool,
) -> bool {
    use_ranges && saved is Some && saved->0.is_resumable_for(url, info) && part_exists
}

/// The plan a download starts with: the saved one where it is adopted, else an even
/// split, else, without ranges, a single stream.
pub open spec fn starting_plan(
    max_connections: u32,
    min_split: u64,
    use_ranges: bool,
    url: Seq<char>,
    info: RemoteInfoView,
    saved: Option<StateView>,
    part_exists: bool,
) -> PlanView {
    if !use_ranges {
        PlanView::single(info.total_size)
    } else if adopts(use_ranges, url, info, saved, part_exists) {
        PlanView::restored(saved->0.segments, info.total_size)
    } else {
        PlanView::even(
            match info.total_size {
                Some(t) => t,
                None => 0,
            },
            max_connections as int,
            min_split as int,
        )
    }
}

/// What saved state holds.
pub open spec fn opt_state(v: Option<DownloadState>) -> Option<StateView> {
    match v {
        Some(s) => Some(s@),
        None => None,
    }
}

/// Decide between resuming and starting over.
///
/// Without range support there is nothing to resume from; with it, an even
/// split starts the download unless the saved state can be adopted.
pub fn choose_start(
    cfg: &EngineConfig,
    url: &str,
    info: &RemoteInfo,
    use_ranges: bool,
    saved: &Option<DownloadState>,
    part_exists: bool,
) -> (r: Start)
    requires
        saved matches Some(s) ==> plan::max_index(s@.segments) < u32::MAX,
    ensures
        r.resumed == adopts(use_ranges, url@, info@, opt_state(*saved), part_exists),
        r.discard == !r.resumed,
        r.plan@ == starting_plan(
            cfg.max_connections,
            cfg.min_split_size,
            use_ranges,
            url@,
            info@,
            opt_state(*saved),
            part_exists,
        ),
        r.plan@.total == (if use_ranges && !r.resumed {
            Some(
                match info@.total_size {
                    Some(t) => t,
                    None => 0,
                },
            )
        } else {
            info@.total_size
        }),
        r.resumed ==> r.plan@ == PlanView::restored(saved->0@.segments, info@.total_size),
        use_ranges && !r.resumed && r.plan@.total == Some(0u64) ==> r.plan@.segments.len() == 0
            && r.plan@.next_index == 0,
        !use_ranges ==> r.plan@.next_index == 1,
        use_ranges && !r.resumed && r.plan@.total->0 > 0 ==> ({
            let total = r.plan@.total->0 as int;
            let pieces = plan::even_pieces(
                total,
                cfg.max_connections as int,
                cfg.min_split_size as int,
            );
            r.plan@.segments == plan::even_segments(total, pieces) && r.plan@.next_index == pieces
        }),
        !use_ranges ==> r.plan@.segments == seq![
            SegmentView::fresh(
                0,
                0,
                match info@.total_size {
                    Some(t) => if t == 0 {
                        0
                    } else {
                        (t - 1) as u64
                    },
                    None => u64::MAX,
                },
            ),
        ],
{
    if !use_ranges {
        return Start { plan: Plan::single(info.total_size), resumed: false, discard: true };
    }
    if let Some(state) = saved {
        if part_exists && state.is_resumable_for(url, info) {
            let plan = Plan::from_snapshots(state.segments.as_slice(), info.total_size);
            return Start { plan, resumed: true, discard: false };
        }
    }
    let total: u64 = match info.total_size {
        Some(t) => t,
        None => 0,
    };
    Start {
        plan: Plan::split_even(total, cfg.max_connections, cfg.min_split_size),
        resumed: false,
        discard: true,
    }
}

/// A fresh start on a resource that can be divided tiles all of it.
pub proof fn law_fresh_start_covers_the_file(total: int, max_connections: int, min_split: int)
    requires
        0 < total <= u64::MAX,
        0 <= max_connections,
        0 <= min_split,
    ensures
        plan::tiles(
            plan::even_segments(total, plan::even_pieces(total, max_connections, min_split)),
            total,
        ),
{
    let floor = if min_split < 1 { 1 } else { min_split };
    let pieces = plan::even_pieces(total, max_connections, min_split);
    assert(total / floor <= total) by (nonlinear_arith)
        requires
            floor >= 1,
            total > 0,
    ;
    plan::law_even_split_tiles(total, pieces);
}

// -------------------------------------------------------------- one request
/// What to ask the server for, to fetch what is left of a segment.
pub enum SegmentRequest {
    /// The segment has nothing left.
    Nothing,
    /// The server has no ranges and part of the file is already there.
    Refuse(Error),
    /// Ask, with these `Accept-Encoding`, `Range` and `If-Range` headers. The
    /// coding is always `identity`: any other would decouple wire bytes from file
    /// offsets.
    Send { accept_encoding: String, range: Option<String>, if_range: Option<String> },
}

/// The `Range` header for the bytes `start..=end`.
pub open spec fn range_text(start: int, end: int) -> Seq<char> {
    "bytes="@ + text::decimal(start as nat) + "-"@ + text::decimal(end as nat)
}

/// What to ask the server for, to fetch what is left of a segment.
pub open spec fn is_request(
    seg: SegmentView,
    use_ranges: bool,
    validator: Option<Seq<char>>,
    r: SegmentRequest,
) -> bool {
    if seg.cursor() > seg.end {
        r is Nothing
    } else if use_ranges {
        r matches SegmentRequest::Send { accept_encoding, range, if_range } && accept_encoding@
            == "identity"@ && opt_text(range) == Some(range_text(seg.cursor(), seg.end as int))
            && opt_text(if_range) == validator
    } else if seg.cursor() > 0 {
        r matches SegmentRequest::Refuse(e) && e@ == ErrorView::Other(
            "cannot resume mid-file without server range support"@,
        )
    } else {
        r matches SegmentRequest::Send { accept_encoding, range, if_range } && accept_encoding@
            == "identity"@ && range is None && if_range is None
    }
}

pub fn segment_request(seg: &Segment, use_ranges: bool, validator: &Option<String>) -> (r:
    SegmentRequest)
    ensures
        is_request(seg@, use_ranges, opt_text(*validator), r),
{
    let start_at: u64 = seg.cursor();
    let end: u64 = seg.end();
    if start_at > end {
        return SegmentRequest::Nothing;
    }
    if use_ranges {
        let mut range = joined("bytes=", text::decimal_of(start_at).as_str());
        range.append("-");
        range.append(text::decimal_of(end).as_str());
        // If the file changed since the download started, the server answers
        // 200 with the whole resource instead of 206.
        SegmentRequest::Send {
            accept_encoding: "identity".to_owned(),
            range: Some(range),
            if_range: copy_opt(validator),
        }
    } else if start_at > 0 {
        SegmentRequest::Refuse(Error::other("cannot resume mid-file without server range support"))
    } else {
        SegmentRequest::Send {
            accept_encoding: "identity".to_owned(),
            range: None,
            if_range: None,
        }
    }
}

/// The offset a response says its body starts at.
pub open spec fn stated_start(h: probe::Fields) -> Option<u64> {
    match headers::header_text(h, "content-range"@) {
        Some(v) => probe::content_range_start(v),
        None => None,
    }
}

/// What is wrong with a response to a segment request; nothing if its body may
/// be written.
pub open spec fn response_fault(
    status: u16,
    h: probe::Fields,
    start_at: u64,
    use_ranges: bool,
) -> Option<ErrorView> {
    if use_ranges {
        if status == 206 {
            match stated_start(h) {
                Some(actual) => if actual != start_at {
                    Some(
                        ErrorView::Other(
                            "server returned range starting at "@ + text::decimal(actual as nat)
                                + ", asked for "@ + text::decimal(start_at as nat),
                        ),
                    )
                } else {
                    None
                },
                None => None,
            }
        } else if status == 416 {
            Some(ErrorView::RangeNotSatisfiable { offset: start_at })
        } else if probe::is_success(status) {
            Some(ErrorView::RangeLost { status })
        } else {
            Some(ErrorView::Status(status))
        }
    } else if !probe::is_success(status) {
        Some(ErrorView::Status(status))
    } else {
        None
    }
}

/// Judge a response to a segment request before any of its body is written.
///
/// The dangerous case is a full body, which must never be written at an offset:
/// it surfaces as `RangeLost`, and the caller restarts sequentially.
pub fn judge_response(status: u16, headers: &HeaderMap, start_at: u64, use_ranges: bool) -> (r:
    Result<(), Error>)
    ensures
        match response_fault(status, headers::entries(*headers), start_at, use_ranges) {
            Some(e) => r matches Err(err) && err@ == e,
            None => r is Ok,
        },
{
    if !use_ranges {
        if 200 <= status && status < 300 {
            return Ok(());
        }
        return Err(Error::Status(status));
    }
    if status == 206 {
        proof {
            reveal_strlit("content-range");
            assert(text::lowered("content-range"@) =~= "content-range"@);
        }
        if let Some(v) = headers::get_text(headers, "content-range") {
            if let Some(actual) = probe::parse_content_range_start(v) {
                if actual != start_at {
                    let mut m = joined(
                        "server returned range starting at ",
                        text::decimal_of(actual).as_str(),
                    );
                    m.append(", asked for ");
                    m.append(text::decimal_of(start_at).as_str());
                    return Err(Error::Other(m));
                }
            }
        }
        return Ok(());
    }
    if status == 416 {
        return Err(Error::RangeNotSatisfiable { offset: start_at });
    }
    if 200 <= status && status < 300 {
        return Err(Error::RangeLost { status });
    }
    Err(Error::Status(status))
}

/// The body of a response to a ranged request is written only if the server
/// answered `206`, and never at an offset other than the one it states.
pub proof fn law_only_a_matching_206_is_written(status: u16, h: probe::Fields, start_at: u64)
    requires
        response_fault(status, h, start_at, true) is None,
    ensures
        status == 206,
        stated_start(h) is Some ==> stated_start(h) == Some(start_at),
{
}

/// A full body in answer to a range always means a sequential restart, and the
/// restart itself, which asks for no range, can never lose one: a download is
/// restarted at most once.
pub proof fn law_range_loss_happens_only_with_ranges(
    status: u16,
    h: probe::Fields,
    start_at: u64,
    use_ranges: bool,
)
    ensures
        use_ranges && probe::is_success(status) && status != 206 ==> response_fault(
            status,
            h,
            start_at,
            use_ranges,
        ) == Some(ErrorView::RangeLost { status }),
        !use_ranges ==> !(response_fault(status, h, start_at, use_ranges) matches Some(
            ErrorView::RangeLost { .. },
        )),
{
}

/// Whether a failed attempt is to be repeated as a single sequential stream,
/// with all partial data discarded.
pub open spec fn must_restart(e: ErrorView) -> bool {
    e is RangeLost
}

/// Whether a failed attempt is to be repeated sequentially.
pub fn must_restart_sequentially(e: &Error) -> (r: bool)
    ensures
        r == must_restart(e@),
{
    match e {
        Error::RangeLost { .. } => true,
        _ => false,
    }
}

// ------------------------------------------------------------- one transfer
/// What a running transfer is, mathematically: the bytes received but not yet
/// written, where they belong, and where the next one does.
#[verifier::ext_equal]
pub struct TransferView {
    pub buffer: Seq<u8>,
    pub buffer_start: int,
    pub position: int,
    pub write_buffer: int,
}

impl TransferView {
    /// The buffer ends where the next byte goes.
    pub open spec fn wf(self) -> bool {
        self.position == self.buffer_start + self.buffer.len()
    }

    /// How many bytes of a chunk belong to a segment that ends at `end`.
    pub open spec fn share(self, len: int, end: int) -> int {
        if self.position > end {
            0
        } else if len <= end - self.position + 1 {
            len
        } else {
            end - self.position + 1
        }
    }
}

impl TransferView {
    /// The transfer after a chunk, and what to do then.
    pub open spec fn accepted(self, chunk: Seq<u8>, end: int) -> (TransferView, ChunkStep) {
        let taken = self.share(chunk.len() as int, end);
        let after = TransferView {
            buffer: self.buffer + chunk.take(taken),
            position: self.position + taken,
            ..self
        };
        (
            after,
            if self.position > end || taken < chunk.len() {
                ChunkStep::Last
            } else if after.buffer.len() >= self.write_buffer {
                ChunkStep::FlushThenMore
            } else {
                ChunkStep::More
            },
        )
    }

    /// The transfer once its buffer is written.
    pub open spec fn flushed(self) -> TransferView {
        TransferView { buffer: Seq::empty(), buffer_start: self.position, ..self }
    }

    /// The segment once the buffer is written: as many bytes further.
    pub open spec fn advanced(self, seg: SegmentView) -> SegmentView {
        SegmentView { done: (seg.done + self.buffer.len()) as u64, ..seg }
    }
}

/// The body of one response on its way to the file.
pub struct Transfer {
    buffer: Vec<u8>,
    buffer_start: u64,
    position: u64,
    write_buffer: usize,
}

impl View for Transfer {
    type V = TransferView;

    closed spec fn view(&self) -> TransferView {
        TransferView {
            buffer: self.buffer@,
            buffer_start: self.buffer_start as int,
            position: self.position as int,
            write_buffer: self.write_buffer as int,
        }
    }
}

/// What to do after a chunk.
#[derive(Debug, Clone, Copy, PartialEq, Eq, Structural)]
pub enum ChunkStep {
    /// Wait for the next chunk.
    More,
    /// Write the buffer out, then wait for the next chunk.
    FlushThenMore,
    /// Write the buffer out and stop: the range is satisfied, and the rest of
    /// the chunk belongs to another segment.
    Last,
}

impl Transfer {
    pub fn new(start_at: u64, write_buffer: usize) -> (r: Transfer)
        ensures
            r@ == (TransferView {
                buffer: Seq::empty(),
                buffer_start: start_at as int,
                position: start_at as int,
                write_buffer: write_buffer as int,
            }),
            r@.wf(),
    {
        Transfer { buffer: Vec::new(), buffer_start: start_at, position: start_at, write_buffer }
    }

    /// Take in a chunk. `end` is the segment's end right now: it is read again
    /// for every chunk, because the coordinator may have split the segment and
    /// handed its tail to another connection.
    pub fn accept(&mut self, chunk: &[u8], end: u64) -> (r: ChunkStep)
        requires
            old(self)@.wf(),
            old(self)@.position + chunk@.len() <= u64::MAX,
        ensures
            final(self)@.wf(),
            (final(self)@, r) == old(self)@.accepted(chunk@, end as int),
    {
        if self.position > end {
            assert(chunk@.take(0) =~= Seq::<u8>::empty());
            assert(old(self)@.buffer + chunk@.take(0) =~= old(self)@.buffer);
            return ChunkStep::Last;
        }
        let room: u64 = (end - self.position).saturating_add(1);
        let take: usize = if chunk.len() as u64 <= room {
            chunk.len()
        } else {
            room as usize
        };
        let part = slice_subrange(chunk, 0, take);
        self.buffer.extend_from_slice(part);
        self.position = self.position + take as u64;
        assert(part@ =~= chunk@.take(take as int));
        if take < chunk.len() {
            ChunkStep::Last
        } else if self.buffer.len() >= self.write_buffer {
            ChunkStep::FlushThenMore
        } else {
            ChunkStep::More
        }
    }

    /// The bytes to write and where; nothing when the buffer is empty.
    pub fn pending(&self) -> (r: Option<(u64, &Vec<u8>)>)
        ensures
            match r {
                Some(w) => self@.buffer.len() > 0 && w.0 == self@.buffer_start && w.1@
                    == self@.buffer,
                None => self@.buffer.len() == 0,
            },
    {
        if self.buffer.len() == 0 {
            None
        } else {
            Some((self.buffer_start, &self.buffer))
        }
    }

    /// The pending bytes are on disk: only now does the segment's cursor
    /// advance, by exactly as many.
    ///
    /// The ordering is the resume guarantee: `done` must never describe bytes
    /// that aren't on disk, or a resumed download will skip a hole and produce a
    /// corrupt file that passes a size check.
    pub fn written(&mut self, seg: &mut Segment)
        requires
            old(self)@.wf(),
            old(seg)@.done + old(self)@.buffer.len() <= u64::MAX,
        ensures
            final(self)@.wf(),
            final(self)@ == old(self)@.flushed(),
            final(seg)@ == old(self)@.advanced(old(seg)@),
            old(seg)@.cursor() == old(self)@.buffer_start ==> final(seg)@.cursor()
                == final(self)@.buffer_start,
    {
        let len: usize = self.buffer.len();
        let _ = seg.add_done(len as u64);
        self.buffer_start = self.position;
        self.buffer = Vec::new();
        assert(self.buffer@ =~= Seq::<u8>::empty());
    }
}

/// Why a transfer ended before the body did.
pub enum Interruption {
    /// The download is being stopped.
    Stopped,
    /// Nothing arrived within the read timeout.
    TimedOut,
    /// The connection failed.
    Failed(HttpFault),
}

/// The error an interruption is reported as.
pub open spec fn interruption(i: Interruption) -> ErrorView {
    match i {
        Interruption::Stopped => ErrorView::Cancelled,
        Interruption::TimedOut => ErrorView::Io(
            IoFaultView {
                kind: IoKind::TimedOut,
                code: None,
                message: "no data received within read timeout"@,
            },
        ),
        Interruption::Failed(e) => ErrorView::Http(e@),
    }
}

/// The error an interruption is reported as. The bytes received before it are
/// still written, so the retry resumes from the new cursor.
pub fn interruption_error(i: Interruption) -> (r: Error)
    ensures
        r@ == interruption(i),
{
    match i {
        Interruption::Stopped => Error::Cancelled,
        Interruption::TimedOut => Error::Io(
            IoFault {
                kind: IoKind::TimedOut,
                code: None,
                message: "no data received within read timeout".to_owned(),
            },
        ),
        Interruption::Failed(e) => Error::Http(e),
    }
}

/// The transfer never takes a byte past the segment's end, and what it has taken
/// of the body, from the first chunk on, lies in the file without a gap: each
/// chunk's bytes follow those before it.
pub proof fn law_transfer_stays_in_the_segment(t: TransferView, chunk: Seq<u8>, end: int)
    requires
        t.wf(),
    ensures
        ({
            let taken = t.share(chunk.len() as int, end);
            &&& 0 <= taken <= chunk.len()
            &&& t.position <= end ==> t.position + taken <= end + 1
            &&& t.position > end ==> taken == 0
            &&& forall|i: int|
                0 <= i < taken ==> (t.buffer + chunk.take(taken))[(t.position + i)
                    - t.buffer_start] == #[trigger] chunk[i]
        }),
{
}

// ------------------------------------------------------------- retrying
/// How long to wait before the next attempt, in milliseconds: doubling from 200,
/// capped so a long outage doesn't stall for minutes.
pub open spec fn backoff_ms(attempt: u32) -> u64 {
    if attempt == 0 {
        200
    } else if attempt == 1 {
        400
    } else if attempt == 2 {
        800
    } else if attempt == 3 {
        1600
    } else if attempt == 4 {
        3200
    } else if attempt == 5 {
        6400
    } else {
        10000
    }
}

/// Exponential backoff, capped so a long outage doesn't stall for minutes.
pub fn backoff(attempt: u32) -> (r: u64)
    ensures
        r == backoff_ms(attempt),
{
    let doublings: u32 = if attempt <= 6 { attempt } else { 6 };
    let factor: u64 = 1u64 << doublings;
    proof {
        assert(1u64 << 0u32 == 1) by (bit_vector);
        assert(1u64 << 1u32 == 2) by (bit_vector);
        assert(1u64 << 2u32 == 4) by (bit_vector);
        assert(1u64 << 3u32 == 8) by (bit_vector);
        assert(1u64 << 4u32 == 16) by (bit_vector);
        assert(1u64 << 5u32 == 32) by (bit_vector);
        assert(1u64 << 6u32 == 64) by (bit_vector);
    }
    let millis: u64 = 200 * factor;
    if millis <= 10000 { millis } else { 10000 }
}

/// What a worker does next with its segment.
pub enum SegmentStep {
    /// Ask the server for what is left.
    Stream,
    /// Wait, then look again.
    Wait { delay_ms: u64 },
    /// The segment is fetched.
    Done,
    Fail(Error),
}

/// Whether a worker does this when it looks at its segment.
pub open spec fn is_segment_begin(seg: SegmentView, stopped: bool, step: SegmentStep) -> bool {
    if stopped {
        step matches SegmentStep::Fail(e) && e@ is Cancelled
    } else if seg.is_complete() {
        step is Done
    } else {
        step is Stream
    }
}

/// What a worker does when it looks at its segment.
pub fn segment_begin(seg: &Segment, stopped: bool) -> (r: SegmentStep)
    ensures
        is_segment_begin(seg@, stopped, r),
{
    if stopped {
        SegmentStep::Fail(Error::Cancelled)
    } else if seg.is_complete() {
        SegmentStep::Done
    } else {
        SegmentStep::Stream
    }
}

/// What a stalled segment is reported as.
pub open spec fn stall_text(seg: SegmentView) -> Seq<char> {
    "segment "@ + text::decimal(seg.index as nat) + " stalled at offset "@ + text::decimal(
        seg.cursor() as nat,
    ) + " with "@ + text::decimal(seg.remaining() as nat) + " bytes left"@
}

/// What comes of one streamed request: the segment and the attempts after it,
/// and the next step.
///
/// A body that ends early, usually a dropped connection, is asked for again from
/// the new cursor; for an open-ended segment the end of the body is the end, even
/// of one that was empty. A transient failure is retried while the budget lasts,
/// from byte zero where there are no ranges. Anything else is final.
pub open spec fn is_segment_end(
    before: SegmentView,
    attempt: u32,
    outcome: Result<(), Error>,
    max_retries: u32,
    use_ranges: bool,
    open_ended: bool,
    after: SegmentView,
    next_attempt: u32,
    step: SegmentStep,
) -> bool {
    match outcome {
        Ok(_) => if before.is_complete() {
            step is Done && after == before && next_attempt == attempt
        } else if open_ended {
            &&& step is Done
            &&& after == (if before.cursor() > 0 {
                before.closed()
            } else {
                before
            })
            &&& next_attempt == attempt
        } else {
            &&& after == before
            &&& next_attempt == attempt + 1
            &&& if attempt + 1 > max_retries {
                step matches SegmentStep::Fail(e) && e@ == ErrorView::RetriesExhausted(
                    stall_text(before),
                )
            } else {
                step == (SegmentStep::Wait { delay_ms: backoff_ms(next_attempt) })
            }
        },
        Err(err) => if err@.is_retryable() && attempt < max_retries {
            &&& after == (if use_ranges {
                before
            } else {
                SegmentView { done: 0, ..before }
            })
            &&& next_attempt == attempt + 1
            &&& step == (SegmentStep::Wait { delay_ms: backoff_ms(next_attempt) })
        } else {
            &&& after == before
            &&& next_attempt == attempt
            &&& step matches SegmentStep::Fail(e) && e@ == err@
        },
    }
}

/// Decide what follows one streamed request.
pub fn segment_end(
    seg: &mut Segment,
    attempt: &mut u32,
    outcome: Result<(), Error>,
    max_retries: u32,
    use_ranges: bool,
    open_ended: bool,
) -> (r: SegmentStep)
    requires
        *old(attempt) < u32::MAX,
    ensures
        is_segment_end(
            old(seg)@,
            *old(attempt),
            outcome,
            max_retries,
            use_ranges,
            open_ended,
            final(seg)@,
            *final(attempt),
            r,
        ),
{
    match outcome {
        Ok(_) => {
            if seg.is_complete() {
                return SegmentStep::Done;
            }
            if open_ended {
                if seg.cursor() > 0 {
                    seg.close_at_cursor();
                }
                return SegmentStep::Done;
            }
            *attempt = *attempt + 1;
            if *attempt > max_retries {
                let mut m = joined("segment ", text::decimal_of(seg.index() as u64).as_str());
                m.append(" stalled at offset ");
                m.append(text::decimal_of(seg.cursor()).as_str());
                m.append(" with ");
                m.append(text::decimal_of(seg.remaining()).as_str());
                m.append(" bytes left");
                return SegmentStep::Fail(Error::RetriesExhausted(m));
            }
            SegmentStep::Wait { delay_ms: backoff(*attempt) }
        },
        Err(err) => {
            if err.is_retryable() && *attempt < max_retries {
                *attempt = *attempt + 1;
                if !use_ranges {
                    // No ranges means no resume: the only correct retry is from
                    // byte zero.
                    seg.set_done(0);
                }
                return SegmentStep::Wait { delay_ms: backoff(*attempt) };
            }
            SegmentStep::Fail(err)
        },
    }
}

/// A worker reports success only for a segment that is fetched, or for an
/// open-ended one whose body was empty, and every wait uses up one of the retries,
/// so it reports at all.
pub proof fn law_worker_success_means_fetched(
    before: SegmentView,
    attempt: u32,
    outcome: Result<(), Error>,
    max_retries: u32,
    use_ranges: bool,
    open_ended: bool,
    after: SegmentView,
    next_attempt: u32,
    step: SegmentStep,
)
    requires
        is_segment_end(
            before,
            attempt,
            outcome,
            max_retries,
            use_ranges,
            open_ended,
            after,
            next_attempt,
            step,
        ),
    ensures
        step is Done ==> after.is_complete() || (open_ended && after.cursor() == 0),
        step is Wait ==> attempt < next_attempt <= max_retries,
        !(step is Stream),
{
}

/// A file of unknown size is exactly as long as what arrived: that is the
/// progress of its segment once its body has ended, be it nothing.
pub proof fn law_an_open_ended_file_is_what_arrived(
    before: SegmentView,
    attempt: u32,
    max_retries: u32,
    use_ranges: bool,
    after: SegmentView,
    next_attempt: u32,
    step: SegmentStep,
)
    requires
        before.start == 0,
        before.end == u64::MAX,
        is_segment_end(
            before,
            attempt,
            Ok(()),
            max_retries,
            use_ranges,
            true,
            after,
            next_attempt,
            step,
        ),
    ensures
        step is Done,
        after.effective_done() == before.done,
{
}

// --------------------------------------------------------------- checkpoints
/// How much time progress may be lost for when the process dies, in milliseconds.
pub const CHECKPOINT_MS: u64 = 1000;

/// Whether it is time to save the resume state again.
pub open spec fn is_checkpoint_due(since_ms: u64) -> bool {
    since_ms >= CHECKPOINT_MS
}

/// Whether the resume state is to be saved again, so long after it was saved last.
pub fn checkpoint_is_due(since_ms: u64) -> (r: bool)
    ensures
        r == is_checkpoint_due(since_ms),
{
    since_ms >= CHECKPOINT_MS
}

// ---------------------------------------------------------------- the pool
/// The first idle segment, from position `i` on.
pub open spec fn first_idle(segments: Seq<SegmentView>, i: int) -> Option<int>
    decreases segments.len() - i,
{
    if i < 0 || i >= segments.len() {
        None
    } else if plan::is_idle(segments[i]) {
        Some(i)
    } else {
        first_idle(segments, i + 1)
    }
}

/// The plan with one segment marked as held by a worker or not.
pub open spec fn with_active(p: PlanView, at: int, active: bool) -> PlanView {
    PlanView {
        segments: p.segments.update(at, SegmentView { active, ..p.segments[at] }),
        ..p
    }
}

/// The next piece of work: leftover segments first, otherwise, where splitting
/// is allowed, the back half of whichever segment is furthest behind.
pub open spec fn next_work(p: PlanView, min_split: int, may_split: bool) -> Option<(PlanView, int)> {
    match first_idle(p.segments, 0) {
        Some(at) => Some((with_active(p, at, true), at)),
        None => match p.split_point(min_split) {
            Some(mid) => if may_split {
                Some(
                    (
                        with_active(p.split_at(mid), p.segments.len() as int, true),
                        p.segments.len() as int,
                    ),
                )
            } else {
                None
            },
            None => None,
        },
    }
}

/// The plan and the segments handed out when `room` workers are free.
pub open spec fn topped_up(p: PlanView, room: nat, min_split: int, may_split: bool) -> (
    PlanView,
    Seq<int>,
)
    decreases room,
{
    if room == 0 {
        (p, Seq::empty())
    } else {
        match next_work(p, min_split, may_split) {
            Some((q, at)) => {
                let (last, rest) = topped_up(q, (room - 1) as nat, min_split, may_split);
                (last, seq![at] + rest)
            },
            None => (p, Seq::empty()),
        }
    }
}

/// Whether a plan is a single stream of unknown size.
pub open spec fn is_open_ended(p: PlanView) -> bool {
    p.total is None && p.segments.len() == 1
}

/// What the pool is, mathematically.
#[verifier::ext_equal]
pub struct PoolView {
    pub plan: PlanView,
    /// A stream of unknown size has come to its end.
    pub ended: bool,
    pub in_flight: int,
    pub limit: int,
    pub min_split: int,
    pub fatal: Option<ErrorView>,
}

impl PoolView {
    /// No more workers than allowed, and each holds one segment.
    pub open spec fn wf(self) -> bool {
        &&& 0 <= self.in_flight <= self.limit
        &&& plan::active_in(self.plan.segments) == self.in_flight
        &&& 0 <= self.min_split
        &&& self.ended ==> self.plan.total is None
    }

    /// A pool with no workers yet. Without ranges there is one connection.
    pub open spec fn opening(
        plan: PlanView,
        use_ranges: bool,
        max_connections: int,
        min_split: int,
    ) -> PoolView {
        PoolView {
            plan,
            ended: false,
            in_flight: 0,
            limit: if use_ranges && max_connections > 1 {
                max_connections
            } else {
                1
            },
            min_split,
            fatal: None,
        }
    }

    /// The pool after the caller has cancelled the download.
    pub open spec fn cancelled(self) -> PoolView {
        PoolView {
            fatal: if self.fatal is Some {
                self.fatal
            } else {
                Some(ErrorView::Cancelled)
            },
            ..self
        }
    }

    /// Why the download failed, once every worker has reported; nothing if it did
    /// not.
    pub open spec fn verdict(self) -> Option<ErrorView> {
        match self.fatal {
            Some(e) => Some(e),
            None => if self.plan.is_complete() || self.ended {
                None
            } else {
                Some(
                    ErrorView::Other(
                        "workers finished with "@ + text::decimal(
                            plan::sum_done(self.plan.segments) as nat,
                        ) + " of "@ + debug_opt(self.plan.total) + " bytes written"@,
                    ),
                )
            },
        }
    }

    /// The pool after as many free workers as possible got work.
    pub open spec fn filled(self, may_split: bool) -> (PoolView, Seq<int>) {
        let (p, handed) = topped_up(
            self.plan,
            (self.limit - self.in_flight) as nat,
            self.min_split,
            may_split,
        );
        (PoolView { plan: p, in_flight: self.in_flight + handed.len(), ..self }, handed)
    }

    /// The pool after the worker on segment `at` has reported: its segment is
    /// free. The first failure is the download's, and winds it down; after it
    /// nothing more is handed out, nor is it once a stream of unknown size has come
    /// to its end.
    pub open spec fn reported(self, at: int, fault: Option<ErrorView>) -> (PoolView, Seq<int>) {
        let freed = PoolView {
            plan: with_active(self.plan, at, false),
            in_flight: self.in_flight - 1,
            ..self
        };
        match (self.fatal, fault) {
            (Some(_), _) => (freed, Seq::empty()),
            (None, Some(e)) => (PoolView { fatal: Some(e), ..freed }, Seq::empty()),
            (None, None) => if is_open_ended(self.plan) {
                (PoolView { ended: true, ..freed }, Seq::empty())
            } else {
                freed.filled(true)
            },
        }
    }
}

/// What an error says of a worker's outcome.
pub open spec fn fault_of(outcome: Result<(), Error>) -> Option<ErrorView> {
    match outcome {
        Ok(_) => None,
        Err(e) => Some(e@),
    }
}

/// What positions say.
pub open spec fn positions(v: Seq<usize>) -> Seq<int> {
    v.map_values(|i: usize| i as int)
}

/// The plan of one download and the workers on it.
pub struct Pool {
    plan: Plan,
    ended: bool,
    in_flight: u32,
    limit: u32,
    min_split: u64,
    fatal: Option<Error>,
}

impl View for Pool {
    type V = PoolView;

    closed spec fn view(&self) -> PoolView {
        PoolView {
            plan: self.plan@,
            ended: self.ended,
            in_flight: self.in_flight as int,
            limit: self.limit as int,
            min_split: self.min_split as int,
            fatal: match self.fatal {
                Some(e) => Some(e@),
                None => None,
            },
        }
    }
}

/// Marking one segment changes the count of held ones by that segment alone.
proof fn lemma_active_update(segments: Seq<SegmentView>, k: int, s: SegmentView)
    requires
        0 <= k < segments.len(),
    ensures
        plan::active_in(segments.update(k, s)) == plan::active_in(segments) - (if segments[k].active {
            1int
        } else {
            0
        }) + (if s.active {
            1int
        } else {
            0
        }),
    decreases segments.len(),
{
    reveal(Seq::filter);
    let p = |x: SegmentView| x.active;
    let changed = segments.update(k, s);
    if k == segments.len() - 1 {
        assert(changed.drop_last() =~= segments.drop_last());
    } else {
        lemma_active_update(segments.drop_last(), k, s);
        assert(changed.drop_last() =~= segments.drop_last().update(k, s));
    }
}

proof fn lemma_active_push(segments: Seq<SegmentView>, s: SegmentView)
    ensures
        plan::active_in(segments.push(s)) == plan::active_in(segments) + (if s.active {
            1int
        } else {
            0
        }),
{
    reveal(Seq::filter);
    assert(segments.push(s).drop_last() =~= segments);
}

proof fn lemma_first_idle(segments: Seq<SegmentView>, i: int, at: int)
    requires
        0 <= i <= at < segments.len(),
        plan::is_idle(segments[at]),
        forall|k: int| i <= k < at ==> !plan::is_idle(#[trigger] segments[k]),
    ensures
        first_idle(segments, i) == Some(at),
    decreases at - i,
{
    if i < at {
        assert(!plan::is_idle(segments[i]));
        lemma_first_idle(segments, i + 1, at);
    }
}

proof fn lemma_no_idle(segments: Seq<SegmentView>, i: int)
    requires
        0 <= i <= segments.len(),
        forall|k: int| i <= k < segments.len() ==> !plan::is_idle(#[trigger] segments[k]),
    ensures
        first_idle(segments, i) is None,
    decreases segments.len() - i,
{
    if i < segments.len() {
        assert(!plan::is_idle(segments[i]));
        lemma_no_idle(segments, i + 1);
    }
}

/// Handing out a piece of work makes one more segment held.
proof fn lemma_next_work(p: PlanView, min_split: int, may_split: bool)
    requires
        0 <= min_split,
        next_work(p, min_split, may_split) is Some,
    ensures
        ({
            let (q, at) = next_work(p, min_split, may_split)->0;
            &&& plan::active_in(q.segments) == plan::active_in(p.segments) + 1
            &&& 0 <= at < q.segments.len()
        }),
{
    lemma_first_idle_bounds(p.segments, 0);
    match first_idle(p.segments, 0) {
        Some(at) => {
            lemma_active_update(p.segments, at, SegmentView { active: true, ..p.segments[at] });
        },
        None => {
            plan::law_split_divides_what_is_left(p, min_split);
            let mid = p.split_point(min_split)->0;
            let k = plan::largest(p.segments);
            let victim = p.segments[k];
            let front = SegmentView { end: (mid - 1) as u64, ..victim };
            let back = SegmentView::fresh(p.next_index, mid as u64, victim.end);
            lemma_active_update(p.segments, k, front);
            lemma_active_push(p.segments.update(k, front), back);
            let split = p.split_at(mid).segments;
            lemma_active_update(
                split,
                p.segments.len() as int,
                SegmentView { active: true, ..back },
            );
        },
    }
}

proof fn lemma_first_idle_bounds(segments: Seq<SegmentView>, i: int)
    ensures
        first_idle(segments, i) matches Some(at) ==> i <= at < segments.len() && 0 <= at
            && plan::is_idle(segments[at]),
    decreases segments.len() - i,
{
    if 0 <= i < segments.len() && !plan::is_idle(segments[i]) {
        lemma_first_idle_bounds(segments, i + 1);
    }
}

/// Filling keeps the pool's books, and hands out no more than there is room for.
proof fn lemma_topped_up(p: PlanView, room: nat, min_split: int, may_split: bool)
    requires
        0 <= min_split,
    ensures
        ({
            let (q, handed) = topped_up(p, room, min_split, may_split);
            &&& handed.len() <= room
            &&& plan::active_in(q.segments) == plan::active_in(p.segments) + handed.len()
        }),
    decreases room,
{
    if room > 0 {
        if let Some((q, at)) = next_work(p, min_split, may_split) {
            lemma_next_work(p, min_split, may_split);
            lemma_topped_up(q, (room - 1) as nat, min_split, may_split);
        }
    }
}

impl Pool {
    /// A pool with no workers yet. Without ranges there is one connection.
    pub fn new(plan: Plan, use_ranges: bool, max_connections: u32, min_split: u64) -> (r: Pool)
        requires
            plan::active_in(plan@.segments) == 0,
        ensures
            r@ == PoolView::opening(plan@, use_ranges, max_connections as int, min_split as int),
            r@.wf(),
    {
        let limit: u32 = if use_ranges && max_connections > 1 { max_connections } else { 1 };
        Pool { plan, ended: false, in_flight: 0, limit, min_split, fatal: None }
    }

    fn hand_out(&mut self, may_split: bool) -> (r: Option<usize>)
        requires
            old(self)@.wf(),
        ensures
            match next_work(old(self)@.plan, old(self)@.min_split, may_split) {
                Some(w) => {
                    &&& r matches Some(at) && at as int == w.1
                    &&& final(self)@ == (PoolView { plan: w.0, ..old(self)@ })
                },
                None => r is None && final(self)@ == old(self)@,
            },
    {
        let ghost before = self.plan@;
        match self.plan.claim_idle() {
            Some(at) => {
                proof {
                    lemma_first_idle(before.segments, 0, at as int);
                    assert(self.plan@ =~= with_active(before, at as int, true));
                }
                Some(at)
            },
            None => {
                proof {
                    lemma_no_idle(before.segments, 0);
                }
                if !may_split {
                    return None;
                }
                match self.plan.split_largest(self.min_split) {
                    Some(at) => {
                        let ghost split = self.plan@;
                        proof {
                            plan::law_split_divides_what_is_left(before, self.min_split as int);
                        }
                        let seg = self.plan.segment_mut(at);
                        let _ = seg.try_activate();
                        assert(self.plan@ =~= with_active(split, at as int, true));
                        Some(at)
                    },
                    None => None,
                }
            },
        }
    }

    fn fill(&mut self, may_split: bool) -> (r: Vec<usize>)
        requires
            old(self)@.wf(),
        ensures
            (final(self)@, positions(r@)) == old(self)@.filled(may_split),
            final(self)@.wf(),
    {
        let mut handed: Vec<usize> = Vec::new();
        let ghost start = self@;
        proof {
            let whole = topped_up(
                start.plan,
                (start.limit - start.in_flight) as nat,
                start.min_split,
                may_split,
            );
            assert(positions(handed@) =~= Seq::<int>::empty());
            assert(positions(handed@) + whole.1 =~= whole.1);
        }
        loop
            invariant_except_break
                self@.wf(),
                self@.limit == start.limit,
                self@.min_split == start.min_split,
                self@.fatal == start.fatal,
                self@.ended == start.ended,
                self@.in_flight == start.in_flight + handed.len(),
                topped_up(
                    start.plan,
                    (start.limit - start.in_flight) as nat,
                    start.min_split,
                    may_split,
                ) == ({
                    let (p, rest) = topped_up(
                        self@.plan,
                        (self@.limit - self@.in_flight) as nat,
                        self@.min_split,
                        may_split,
                    );
                    (p, positions(handed@) + rest)
                }),
            ensures
                self@.wf(),
                (self@, positions(handed@)) == start.filled(may_split),
            decreases self@.limit - self@.in_flight,
        {
            if self.in_flight >= self.limit {
                proof {
                    assert(positions(handed@) + Seq::<int>::empty() =~= positions(handed@));
                }
                break;
            }
            let ghost before = self@;
            let ghost so_far = positions(handed@);
            match self.hand_out(may_split) {
                Some(at) => {
                    proof {
                        lemma_next_work(before.plan, before.min_split, may_split);
                    }
                    self.in_flight = self.in_flight + 1;
                    handed.push(at);
                    proof {
                        let (p, rest) = topped_up(
                            self@.plan,
                            (self@.limit - self@.in_flight) as nat,
                            self@.min_split,
                            may_split,
                        );
                        assert(positions(handed@) =~= so_far.push(at as int));
                        assert(so_far + (seq![at as int] + rest) =~= positions(handed@) + rest);
                    }
                },
                None => {
                    proof {
                        assert(positions(handed@) + Seq::<int>::empty() =~= positions(handed@));
                    }
                    break;
                },
            }
        }
        handed
    }

    /// Start the first workers, on the segments nobody works on yet.
    pub fn launch(&mut self) -> (r: Vec<usize>)
        requires
            old(self)@.wf(),
        ensures
            (final(self)@, positions(r@)) == old(self)@.filled(false),
            final(self)@.wf(),
    {
        self.fill(false)
    }

    /// The worker on segment `at` has reported. Returns the segments to start
    /// workers on: leftover work first, otherwise the back half of whichever
    /// segment is furthest behind.
    pub fn finished(&mut self, at: usize, outcome: Result<(), Error>) -> (r: Vec<usize>)
        requires
            old(self)@.wf(),
            at < old(self)@.plan.segments.len(),
            old(self)@.plan.segments[at as int].active,
        ensures
            (final(self)@, positions(r@)) == old(self)@.reported(at as int, fault_of(outcome)),
            final(self)@.wf(),
    {
        let ghost before = self@;
        proof {
            lemma_active_update(
                before.plan.segments,
                at as int,
                SegmentView { active: false, ..before.plan.segments[at as int] },
            );
        }
        let seg = self.plan.segment_mut(at);
        seg.deactivate();
        self.in_flight = self.in_flight - 1;
        assert(self.plan@ =~= with_active(before.plan, at as int, false));
        let none: Vec<usize> = Vec::new();
        assert(positions(none@) =~= Seq::<int>::empty());
        if self.fatal.is_some() {
            return none;
        }
        match outcome {
            Ok(_) => if self.plan.total().is_none() && self.plan.segments().len() == 1 {
                self.ended = true;
                none
            } else {
                self.fill(true)
            },
            Err(e) => {
                self.fatal = Some(e);
                none
            },
        }
    }

    /// The caller's cancel token was found tripped: the download stops, unless
    /// it is already stopping for a reason of its own.
    pub fn cancelled(&mut self)
        requires
            old(self)@.wf(),
        ensures
            final(self)@ == old(self)@.cancelled(),
            final(self)@.wf(),
    {
        if self.fatal.is_none() {
            self.fatal = Some(Error::Cancelled);
        }
    }

    /// Whether the workers have to wind down.
    pub fn is_stopping(&self) -> (r: bool)
        ensures
            r == self@.fatal is Some,
    {
        self.fatal.is_some()
    }

    /// Whether every worker has reported.
    pub fn is_drained(&self) -> (r: bool)
        ensures
            r == (self@.in_flight == 0),
    {
        self.in_flight == 0
    }

    pub fn plan(&self) -> (r: &Plan)
        ensures
            r@ == self@.plan,
    {
        &self.plan
    }

    /// The segment a worker holds, for it to report on. The pool's books stay
    /// right as long as the worker leaves it held.
    pub fn segment_mut(&mut self, at: usize) -> (r: &mut Segment)
        requires
            old(self)@.wf(),
            at < old(self)@.plan.segments.len(),
        ensures
            r@ == old(self)@.plan.segments[at as int],
            final(self)@ == (PoolView {
                plan: PlanView {
                    segments: old(self)@.plan.segments.update(at as int, final(r)@),
                    ..old(self)@.plan
                },
                ..old(self)@
            }),
            final(r)@.active == old(self)@.plan.segments[at as int].active ==> final(self)@.wf(),
    {
        let ghost before = self.plan@;
        let r = self.plan.segment_mut(at);
        proof {
            lemma_active_update(before.segments, at as int, final(r)@);
        }
        r
    }
}

/// An optional number as it is shown in a message.
pub open spec fn debug_opt(v: Option<u64>) -> Seq<char> {
    match v {
        Some(n) => "Some("@ + text::decimal(n as nat) + ")"@,
        None => "None"@,
    }
}

/// Judge the download once every worker has reported. Its first failure is its
/// own; without one the plan has to be complete, because finalising an
/// incomplete file would hand the user silent corruption. A stream of unknown size
/// is complete when it has come to its end.
pub fn verdict(pool: &Pool) -> (r: Result<(), Error>)
    requires
        plan::sum_done(pool@.plan.segments) <= u64::MAX,
    ensures
        match pool@.verdict() {
            Some(e) => r matches Err(err) && err@ == e,
            None => r is Ok,
        },
{
    if let Some(e) = &pool.fatal {
        return Err(e.copied());
    }
    if pool.ended || pool.plan.is_complete() {
        return Ok(());
    }
    let mut m = joined("workers finished with ", text::decimal_of(pool.plan.total_done()).as_str());
    m.append(" of ");
    m.append(debug_opt_of(pool.plan.total()).as_str());
    m.append(" bytes written");
    Err(Error::Other(m))
}

fn debug_opt_of(v: Option<u64>) -> (r: String)
    ensures
        r@ == debug_opt(v),
{
    match v {
        Some(n) => {
            let mut out = joined("Some(", text::decimal_of(n).as_str());
            out.append(")");
            out
        },
        None => "None".to_owned(),
    }
}

/// Handing out work keeps the tiling, whatever is handed out.
proof fn lemma_next_work_tiles(p: PlanView, min_split: int, may_split: bool, total: int)
    requires
        0 <= min_split,
        total <= u64::MAX,
        plan::tiles(p.segments, total),
        next_work(p, min_split, may_split) is Some,
    ensures
        ({
            let (q, at) = next_work(p, min_split, may_split)->0;
            plan::tiles(q.segments, total)
        }),
{
    lemma_first_idle_bounds(p.segments, 0);
    match first_idle(p.segments, 0) {
        Some(at) => {
            lemma_marking_keeps_tiling(p.segments, at, true, total);
        },
        None => {
            plan::law_split_divides_what_is_left(p, min_split);
            plan::law_split_keeps_the_tiling(p, min_split, total);
            let split = p.split_at(p.split_point(min_split)->0).segments;
            lemma_marking_keeps_tiling(split, p.segments.len() as int, true, total);
        },
    }
}

/// Reporting on a segment, by whatever leaves its range alone, keeps the tiling.
proof fn lemma_same_range_keeps_tiling(
    segments: Seq<SegmentView>,
    at: int,
    s: SegmentView,
    total: int,
)
    requires
        0 <= at < segments.len(),
        s.start == segments[at].start,
        s.end == segments[at].end,
        plan::tiles(segments, total),
    ensures
        plan::tiles(segments.update(at, s), total),
{
    let after = segments.update(at, s);
    assert forall|b: int| 0 <= b < total implies #[trigger] plan::is_held(after, b) by {
        assert(plan::is_held(segments, b));
        let i = choose|i: int| 0 <= i < segments.len() && (#[trigger] segments[i]).owns(b);
        assert(after[i].owns(b));
    }
    plan::lemma_sum_length_update(segments, at, s);
}

proof fn lemma_marking_keeps_tiling(
    segments: Seq<SegmentView>,
    at: int,
    active: bool,
    total: int,
)
    requires
        0 <= at < segments.len(),
        plan::tiles(segments, total),
    ensures
        plan::tiles(segments.update(at, SegmentView { active, ..segments[at] }), total),
{
    lemma_same_range_keeps_tiling(
        segments,
        at,
        SegmentView { active, ..segments[at] },
        total,
    );
}

proof fn lemma_topped_up_tiles(
    p: PlanView,
    room: nat,
    min_split: int,
    may_split: bool,
    total: int,
)
    requires
        0 <= min_split,
        total <= u64::MAX,
        plan::tiles(p.segments, total),
    ensures
        plan::tiles(topped_up(p, room, min_split, may_split).0.segments, total),
    decreases room,
{
    if room > 0 {
        if let Some((q, at)) = next_work(p, min_split, may_split) {
            lemma_next_work_tiles(p, min_split, may_split, total);
            lemma_topped_up_tiles(q, (room - 1) as nat, min_split, may_split, total);
        }
    }
}

/// Throughout a download, whatever the workers report and however often segments
/// are split, every byte of the file belongs to exactly one segment.
pub proof fn law_pool_keeps_the_tiling(
    pool: PoolView,
    at: int,
    fault: Option<ErrorView>,
    may_split: bool,
    total: int,
)
    requires
        pool.wf(),
        total <= u64::MAX,
        plan::tiles(pool.plan.segments, total),
        0 <= at < pool.plan.segments.len(),
    ensures
        plan::tiles(pool.filled(may_split).0.plan.segments, total),
        pool.in_flight > 0 ==> plan::tiles(
            pool.reported(at, fault).0.plan.segments,
            total,
        ),
{
    lemma_topped_up_tiles(
        pool.plan,
        (pool.limit - pool.in_flight) as nat,
        pool.min_split,
        may_split,
        total,
    );
    lemma_marking_keeps_tiling(pool.plan.segments, at, false, total);
    let freed = with_active(pool.plan, at, false);
    lemma_topped_up_tiles(
        freed,
        (pool.limit - (pool.in_flight - 1)) as nat,
        pool.min_split,
        true,
        total,
    );
}

/// A worker's progress changes no segment's range, so it keeps the tiling too.
pub proof fn law_progress_keeps_the_tiling(p: PlanView, at: int, done: u64, total: int)
    requires
        plan::tiles(p.segments, total),
        0 <= at < p.segments.len(),
    ensures
        plan::tiles(p.segments.update(at, SegmentView { done, ..p.segments[at] }), total),
{
    lemma_same_range_keeps_tiling(
        p.segments,
        at,
        SegmentView { done, ..p.segments[at] },
        total,
    );
}

/// The pool never leaves a worker idle while there is work it could do: after
/// topping up, either the pool is full, or nothing is left to claim and nothing
/// is left that is worth splitting.
pub proof fn law_no_worker_idles_while_there_is_work(p: PlanView, room: nat, min_split: int)
    requires
        0 <= min_split,
    ensures
        ({
            let (q, handed) = topped_up(p, room, min_split, true);
            handed.len() == room || (first_idle(q.segments, 0) is None && q.split_point(
                min_split,
            ) is None)
        }),
    decreases room,
{
    if room > 0 {
        if let Some((q, at)) = next_work(p, min_split, true) {
            law_no_worker_idles_while_there_is_work(q, (room - 1) as nat, min_split);
        }
    }
}

// ------------------------------------------------------------------- the end
/// What finishing a download involves.
pub struct Finish {
    /// How long the file is.
    pub bytes: u64,
    /// Whether the file has to be cut to that length, because its size was not
    /// known when it was created.
    pub truncate: bool,
    pub category: Category,
    /// Where the file goes instead, when its first bytes gave away a category
    /// that its name and type had not.
    pub moved: Option<Place>,
}

/// The category a finished file is filed under: only a file that nothing else
/// classified is judged by its first bytes.
pub open spec fn final_category(category: Category, head: Seq<u8>) -> Category {
    match categorize::category_of_magic(head) {
        Some(sniffed) => if category == Category::Other {
            sniffed
        } else {
            category
        },
        None => category,
    }
}

/// How long a finished file is: as long as the server said, else as long as what
/// arrived.
pub open spec fn final_length(p: PlanView) -> int {
    match p.total {
        Some(total) => total as int,
        None => plan::sum_done(p.segments),
    }
}

/// Where a finished file goes instead, if its first bytes give away a category
/// that its name and type had not, and files are sorted by category.
pub open spec fn moved_to(
    root: Seq<char>,
    by_type: bool,
    explicit_dir: bool,
    category: Category,
    head: Seq<u8>,
) -> Option<PlaceView> {
    if !explicit_dir && by_type && final_category(category, head) != category {
        Some(PlaceView { base: root, folder: Some(final_category(category, head)) })
    } else {
        None
    }
}

/// Decide how a complete download is finished. `head` is the beginning of the
/// file.
pub fn finalize(
    cfg: &EngineConfig,
    plan: &Plan,
    category: Category,
    explicit_dir: bool,
    head: &[u8],
) -> (r: Finish)
    requires
        plan@.total is None ==> plan::sum_done(plan@.segments) <= u64::MAX,
    ensures
        r.bytes == final_length(plan@),
        r.truncate == (plan@.total is None),
        r.category == final_category(category, head@),
        match moved_to(
            cfg.download_root@,
            cfg.organize_by_type,
            explicit_dir,
            category,
            head@,
        ) {
            Some(place) => r.moved matches Some(p) && p@ == place,
            None => r.moved is None,
        },
{
    let total: Option<u64> = plan.total();
    let bytes: u64 = match total {
        Some(t) => t,
        None => plan.total_done(),
    };
    let mut last = category;
    if category == Category::Other {
        if let Some(sniffed) = categorize::from_magic(head) {
            last = sniffed;
        }
    }
    let moved: Option<Place> = if !explicit_dir && cfg.organize_by_type && last != category {
        Some(Place { base: cfg.download_root.clone(), folder: Some(last) })
    } else {
        None
    };
    Finish { bytes, truncate: total.is_none(), category: last, moved }
}

/// A download that succeeds, of a file whose size is known and whose segments
/// tiled it, has every byte: no failure, a complete plan, and as much progress as
/// the file is long.
pub proof fn law_success_means_every_byte(pool: PoolView, total: int)
    requires
        pool.wf(),
        pool.verdict() is None,
        pool.plan.total is Some,
        total <= u64::MAX,
        plan::tiles(pool.plan.segments, total),
    ensures
        plan::sum_done(pool.plan.segments) == total,
{
    plan::law_complete_means_every_byte(pool.plan, total);
}

/// A folder the caller named is where the file goes, whatever it turns out to be.
/// Any other file ends up under the root: in the folder of its final category, if
/// files are sorted.
pub proof fn law_a_finished_file_lies_where_it_belongs(
    root: Seq<char>,
    by_type: bool,
    target_dir: Option<Seq<char>>,
    category: Category,
    head: Seq<u8>,
)
    ensures
        ({
            let first = destination(root, by_type, target_dir, category);
            let last = match moved_to(root, by_type, target_dir is Some, category, head) {
                Some(place) => place,
                None => first,
            };
            last == (match target_dir {
                Some(dir) => PlaceView { base: dir, folder: None },
                None => PlaceView {
                    base: root,
                    folder: if by_type {
                        Some(final_category(category, head))
                    } else {
                        None
                    },
                },
            })
        }),
{
}

// ------------------------------------------------------------- laws on workers
/// A transient failure never ends a transfer while there are tries left: the worker
/// waits and asks again, and where the server takes ranges it goes on from the byte
/// it had got to. Nothing but that one try is used up.
pub proof fn law_a_transient_failure_is_tried_again(
    before: SegmentView,
    attempt: u32,
    err: Error,
    max_retries: u32,
    use_ranges: bool,
    open_ended: bool,
    after: SegmentView,
    next_attempt: u32,
    step: SegmentStep,
)
    requires
        is_segment_end(
            before,
            attempt,
            Err(err),
            max_retries,
            use_ranges,
            open_ended,
            after,
            next_attempt,
            step,
        ),
    ensures
        err@.is_retryable() && attempt < max_retries ==> step is Wait && next_attempt == attempt + 1,
        use_ranges ==> after == before,
        after.index == before.index && after.start == before.start && after.end == before.end
            && after.active == before.active,
        !use_ranges && err@.is_retryable() && attempt < max_retries ==> after.done == 0,
        !err@.is_retryable() || attempt >= max_retries ==> (step matches SegmentStep::Fail(e) && e@
            == err@) && after == before,
{
}

/// A body that ends early is asked for again from where it ended, for as long as
/// there are tries left, and only then given up.
pub proof fn law_a_body_cut_short_is_asked_for_again(
    before: SegmentView,
    attempt: u32,
    max_retries: u32,
    use_ranges: bool,
    after: SegmentView,
    next_attempt: u32,
    step: SegmentStep,
)
    requires
        before.end < u64::MAX,
        is_segment_end(
            before,
            attempt,
            Ok(()),
            max_retries,
            use_ranges,
            false,
            after,
            next_attempt,
            step,
        ),
    ensures
        after == before,
        before.start + before.done > before.end ==> step is Done && next_attempt == attempt,
        before.start + before.done <= before.end ==> next_attempt == attempt + 1,
        before.start + before.done <= before.end && attempt < max_retries ==> step is Wait,
        before.start + before.done <= before.end && attempt >= max_retries ==> (
        step matches SegmentStep::Fail(e) && e@ is RetriesExhausted),
{
    plan::law_a_segment_in_numbers(before);
}

/// A wait before a try is twice the one before it, until it is ten seconds.
pub proof fn law_waits_double(attempt: u32)
    requires
        attempt < u32::MAX,
    ensures
        backoff_ms(0) == 200,
        2 * backoff_ms(attempt) <= 10000 ==> backoff_ms((attempt + 1) as u32) == 2 * backoff_ms(
            attempt,
        ),
        2 * backoff_ms(attempt) > 10000 ==> backoff_ms((attempt + 1) as u32) == 10000,
{
}

/// However a body is interrupted, the worker tries again, unless it was the
/// download that was stopped.
pub proof fn law_only_a_stop_is_not_tried_again(e: HttpFault)
    ensures
        !interruption(Interruption::Stopped).is_retryable(),
        interruption(Interruption::TimedOut).is_retryable(),
        e.timeout || e.connect || e.request || e.body ==> interruption(
            Interruption::Failed(e),
        ).is_retryable(),
{
}

// ------------------------------------------------------------ laws on requests
/// What is left of a segment is what is asked for, from its first missing byte to
/// its last, in no coding but the plain one, and only if the file has not changed.
/// Without ranges the whole file is asked for, and only at its beginning.
pub proof fn law_what_is_left_is_asked_for(
    seg: SegmentView,
    use_ranges: bool,
    validator: Option<Seq<char>>,
    r: SegmentRequest,
)
    requires
        is_request(seg, use_ranges, validator, r),
        seg.end < u64::MAX,
    ensures
        seg.start + seg.done > seg.end <==> r is Nothing,
        seg.start + seg.done <= seg.end && use_ranges ==> r is Send,
        seg.start + seg.done == 0 ==> r is Send,
        !use_ranges && 0 < seg.start + seg.done <= seg.end ==> r is Refuse,
        r matches SegmentRequest::Send { accept_encoding, range, if_range } ==> accept_encoding@
            == "identity"@ && (use_ranges ==> opt_text(range) == Some(
            "bytes="@ + text::decimal((seg.start + seg.done) as nat) + "-"@ + text::decimal(
                seg.end as nat,
            ),
        ) && opt_text(if_range) == validator) && (!use_ranges ==> range is None && if_range is None),
{
}

/// A good answer is taken: a `206` that starts where it was asked to, or does not
/// say where, and, without ranges, any success. Everything else is an error, and the
/// error says which.
pub proof fn law_a_good_answer_is_taken(
    status: u16,
    h: probe::Fields,
    start_at: u64,
    a: nat,
    b: nat,
    n: nat,
)
    requires
        a <= u64::MAX,
        n <= u64::MAX,
    ensures
        headers::header_text(h, "content-range"@) is None ==> response_fault(
            206,
            h,
            start_at,
            true,
        ) is None,
        headers::header_text(h, "content-range"@) == Some(probe::range_answer(a, b, n)) ==> (
        response_fault(206, h, start_at, true) is None <==> a == start_at),
        200 <= status <= 299 ==> response_fault(status, h, start_at, false) is None,
        status < 200 || status > 299 ==> response_fault(status, h, start_at, false) == Some(
            ErrorView::Status(status),
        ),
        status == 416 ==> response_fault(status, h, start_at, true) == Some(
            ErrorView::RangeNotSatisfiable { offset: start_at },
        ),
        (status < 200 || status > 299) && status != 416 ==> response_fault(
            status,
            h,
            start_at,
            true,
        ) == Some(ErrorView::Status(status)),
{
    probe::law_a_range_reads_back(a, b, n);
}

/// A whole file in answer to a range means starting over as one stream, and nothing
/// else does.
pub proof fn law_only_a_lost_range_starts_over(
    status: u16,
    h: probe::Fields,
    start_at: u64,
    use_ranges: bool,
)
    ensures
        use_ranges && 200 <= status <= 299 && status != 206 ==> (response_fault(
            status,
            h,
            start_at,
            use_ranges,
        ) matches Some(e) && must_restart(e)),
        response_fault(status, h, start_at, use_ranges) matches Some(e) ==> (must_restart(e)
            ==> use_ranges && 200 <= status <= 299 && status != 206),
        !must_restart(ErrorView::Cancelled),
        !must_restart(ErrorView::Status(status)),
{
}

// ----------------------------------------------------------- laws on transfers
/// However a body is cut into chunks, the same bytes go to the same places: taking
/// in two chunks is taking in both as one, and every byte up to the segment's end is
/// taken.
pub proof fn law_chunks_do_not_matter(t: TransferView, a: Seq<u8>, b: Seq<u8>, end: int)
    requires
        t.wf(),
    ensures
        ({
            let (first, _) = t.accepted(a, end);
            let (second, _) = first.accepted(b, end);
            let (whole, _) = t.accepted(a + b, end);
            &&& first.wf()
            &&& second.buffer == whole.buffer
            &&& second.position == whole.position
            &&& second.buffer_start == t.buffer_start
        }),
        t.position + a.len() <= end + 1 ==> t.accepted(a, end).0.buffer == t.buffer + a,
        t.position <= end + 1 && t.position + a.len() > end + 1 ==> t.accepted(a, end).0.position
            == end + 1,
{
    let (first, _) = t.accepted(a, end);
    let (second, _) = first.accepted(b, end);
    let (whole, _) = t.accepted(a + b, end);
    assert(second.buffer =~= whole.buffer);
    if t.position + a.len() <= end + 1 {
        assert(t.buffer + a.take(t.share(a.len() as int, end)) =~= t.buffer + a);
    }
}

/// A transfer stops with the chunk that goes past the segment's end, and otherwise
/// goes on; the buffer is written before it grows past its size.
pub proof fn law_a_transfer_stops_at_the_end(t: TransferView, chunk: Seq<u8>, end: int)
    requires
        t.wf(),
        chunk.len() > 0,
    ensures
        t.accepted(chunk, end).1 == ChunkStep::Last <==> t.position + chunk.len() > end + 1,
        t.accepted(chunk, end).1 == ChunkStep::More ==> t.accepted(chunk, end).0.buffer.len()
            < t.write_buffer,
{
}

/// Progress is what was written, byte for byte: after a write the segment is as many
/// bytes further as the buffer held, its range is the same, the buffer is empty, and
/// the next byte goes behind the last one.
pub proof fn law_progress_is_what_was_written(t: TransferView, seg: SegmentView)
    requires
        t.wf(),
        seg.done + t.buffer.len() <= u64::MAX,
    ensures
        t.advanced(seg).done == seg.done + t.buffer.len(),
        t.advanced(seg).start == seg.start && t.advanced(seg).end == seg.end,
        t.advanced(seg).active == seg.active && t.advanced(seg).index == seg.index,
        t.flushed().buffer.len() == 0,
        t.flushed().position == t.position,
        t.flushed().buffer_start == t.buffer_start + t.buffer.len(),
        t.flushed().wf(),
{
}

// --------------------------------------------------------------- laws on starts
/// A download goes on where it had got to exactly if its state is that of the file
/// the server serves now, its partial data is there, and the server takes ranges.
pub proof fn law_a_download_goes_on_where_it_can(
    max_connections: u32,
    min_split: u64,
    url: Seq<char>,
    info: RemoteInfoView,
    saved: StateView,
    i: int,
)
    requires
        saved.url == url,
        saved.total_size == info.total_size,
        saved.validator == info.validator,
        info.supports_ranges,
        0 <= i < saved.segments.len(),
    ensures
        adopts(true, url, info, Some(saved), true),
        !adopts(true, url, info, Some(saved), false),
        !adopts(false, url, info, Some(saved), true),
        !adopts(true, url, info, None, true),
        ({
            let p = starting_plan(
                max_connections,
                min_split,
                true,
                url,
                info,
                Some(saved),
                true,
            );
            &&& p.segments.len() == saved.segments.len()
            &&& p.segments[i].done == saved.segments[i].done
            &&& p.segments[i].start == saved.segments[i].start
            &&& p.segments[i].end == saved.segments[i].end
            &&& p.total == info.total_size
        }),
{
    state::law_progress_is_used_for_the_same_file_alone(saved, url, info);
}

/// A download that starts afresh has nothing yet, covers the whole file, and is cut
/// into as many pieces as there are connections where the file is large enough.
pub proof fn law_a_fresh_start_has_nothing_yet(
    max_connections: u32,
    min_split: u64,
    url: Seq<char>,
    info: RemoteInfoView,
    saved: Option<StateView>,
    part_exists: bool,
    total: u64,
)
    requires
        info.total_size == Some(total),
        0 < total,
        1 <= max_connections,
        1 <= min_split,
        !adopts(true, url, info, saved, part_exists),
    ensures
        ({
            let p = starting_plan(
                max_connections,
                min_split,
                true,
                url,
                info,
                saved,
                part_exists,
            );
            &&& plan::tiles(p.segments, total as int)
            &&& p.total == Some(total)
            &&& forall|i: int| 0 <= i < p.segments.len() ==> (#[trigger] p.segments[i]).done == 0
            &&& max_connections * min_split <= total ==> p.segments.len() == max_connections
            &&& p.segments.len() <= max_connections
        }),
        ({
            let p = starting_plan(
                max_connections,
                min_split,
                false,
                url,
                info,
                saved,
                part_exists,
            );
            &&& plan::tiles(p.segments, total as int)
            &&& p.segments.len() == 1
            &&& p.segments[0].done == 0
        }),
{
    plan::law_a_file_is_cut_as_asked(total as int, max_connections as int, min_split as int);
    law_fresh_start_covers_the_file(total as int, max_connections as int, min_split as int);
    let one = PlanView::single(info.total_size).segments;
    assert(one.drop_last() =~= Seq::<SegmentView>::empty());
    reveal_with_fuel(plan::sum_length, 2);
    assert forall|b: int| 0 <= b < total implies #[trigger] plan::is_held(one, b) by {
        assert(one[0].owns(b));
    }
}

/// Partial data lies in the temp directory under a name that the download's identity
/// gives, wherever the finished file goes; or, where that is switched off, beside the
/// finished file, under its name.
pub proof fn law_partial_data_lies_apart(
    temp_dir: Seq<char>,
    url: Seq<char>,
    dir: Seq<char>,
    filename: Seq<char>,
    target: PathView,
    other: PathView,
)
    ensures
        partial_path(temp_dir, true, url, dir, filename, target).dir == temp_dir,
        partial_path(temp_dir, true, url, dir, filename, target) == partial_path(
            temp_dir,
            true,
            url,
            dir,
            filename,
            other,
        ),
        partial_path(temp_dir, true, url, dir, filename, target).name == scratch::part_name(
            url,
            dir,
            filename,
        ),
        partial_path(temp_dir, false, url, dir, filename, target).dir == target.dir,
        partial_path(temp_dir, false, url, dir, filename, target).name == target.name + ".part"@,
{
}

// --------------------------------------------------------------- laws on the pool
/// Nothing is passed over: where no idle segment is found there is none.
proof fn lemma_none_is_idle(segments: Seq<SegmentView>, i: int, k: int)
    requires
        0 <= i <= k < segments.len(),
        first_idle(segments, i) is None,
    ensures
        !plan::is_idle(segments[k]),
    decreases k - i,
{
    if i < k {
        lemma_none_is_idle(segments, i + 1, k);
    }
}

/// Handing out work moves no end up.
proof fn lemma_topped_up_ends(p: PlanView, room: nat, min_split: int, may_split: bool)
    requires
        0 <= min_split,
        forall|i: int| 0 <= i < p.segments.len() ==> (#[trigger] p.segments[i]).end < u64::MAX,
    ensures
        ({
            let q = topped_up(p, room, min_split, may_split).0;
            forall|i: int| 0 <= i < q.segments.len() ==> (#[trigger] q.segments[i]).end < u64::MAX
        }),
    decreases room,
{
    if room > 0 {
        if let Some((q, at)) = next_work(p, min_split, may_split) {
            lemma_first_idle_bounds(p.segments, 0);
            if first_idle(p.segments, 0) is None {
                plan::law_split_divides_what_is_left(p, min_split);
                let split = p.split_at(p.split_point(min_split)->0);
                assert forall|i: int| 0 <= i < split.segments.len() implies (
                #[trigger] split.segments[i]).end < u64::MAX by {
                    if i < p.segments.len() {
                        assert(p.segments[i].end < u64::MAX);
                    } else {
                        assert(p.segments[plan::largest(p.segments)].end < u64::MAX);
                    }
                }
                assert forall|i: int| 0 <= i < q.segments.len() implies (
                #[trigger] q.segments[i]).end < u64::MAX by {
                    assert(split.segments[i].end < u64::MAX);
                }
            } else {
                assert forall|i: int| 0 <= i < q.segments.len() implies (
                #[trigger] q.segments[i]).end < u64::MAX by {
                    assert(p.segments[i].end < u64::MAX);
                }
            }
            lemma_topped_up_ends(q, (room - 1) as nat, min_split, may_split);
        }
    }
}

/// A held segment stays held, keeps having work, and is not handed out again.
proof fn lemma_topped_up_keeps(
    p: PlanView,
    room: nat,
    min_split: int,
    may_split: bool,
    k: int,
)
    requires
        0 <= min_split,
        0 <= k < p.segments.len(),
        p.segments[k].active,
    ensures
        ({
            let (q, handed) = topped_up(p, room, min_split, may_split);
            &&& k < q.segments.len()
            &&& q.segments[k].active
            &&& !p.segments[k].is_complete() ==> !q.segments[k].is_complete()
            &&& !handed.contains(k)
        }),
    decreases room,
{
    if room > 0 {
        if let Some((q, at)) = next_work(p, min_split, may_split) {
            lemma_first_idle_bounds(p.segments, 0);
            if first_idle(p.segments, 0) is None {
                plan::law_split_divides_what_is_left(p, min_split);
            }
            lemma_topped_up_keeps(q, (room - 1) as nat, min_split, may_split, k);
            let (last, rest) = topped_up(q, (room - 1) as nat, min_split, may_split);
            let handed = seq![at] + rest;
            if handed.contains(k) {
                let j = choose|j: int| 0 <= j < handed.len() && handed[j] == k;
                if j > 0 {
                    assert(rest[j - 1] == k);
                }
            }
        }
    }
}

/// Whatever is handed out is work: a segment with bytes missing, which is the
/// worker's from then on, was nobody's before, and is handed to no other worker.
pub proof fn law_what_is_handed_out_is_work(
    p: PlanView,
    room: nat,
    min_split: int,
    may_split: bool,
)
    requires
        0 <= min_split,
    ensures
        ({
            let (q, handed) = topped_up(p, room, min_split, may_split);
            &&& forall|j: int|
                0 <= j < handed.len() ==> 0 <= #[trigger] handed[j] < q.segments.len()
                    && q.segments[handed[j]].active && !q.segments[handed[j]].is_complete()
            &&& forall|j: int|
                0 <= j < handed.len() && #[trigger] handed[j] < p.segments.len()
                    ==> !p.segments[handed[j]].active
            &&& handed.no_duplicates()
        }),
    decreases room,
{
    if room > 0 {
        if let Some((q, at)) = next_work(p, min_split, may_split) {
            lemma_first_idle_bounds(p.segments, 0);
            if first_idle(p.segments, 0) is None {
                plan::law_split_divides_what_is_left(p, min_split);
            }
            assert(q.segments[at].active && !q.segments[at].is_complete());
            lemma_topped_up_keeps(q, (room - 1) as nat, min_split, may_split, at);
            law_what_is_handed_out_is_work(q, (room - 1) as nat, min_split, may_split);
            let (last, rest) = topped_up(q, (room - 1) as nat, min_split, may_split);
            let handed = seq![at] + rest;
            assert forall|j: int| 0 <= j < handed.len() implies 0 <= #[trigger] handed[j]
                < last.segments.len() && last.segments[handed[j]].active
                && !last.segments[handed[j]].is_complete() by {
                if j > 0 {
                    assert(rest[j - 1] == handed[j]);
                }
            }
            assert forall|j: int|
                0 <= j < handed.len() && #[trigger] handed[j] < p.segments.len() implies
                !p.segments[handed[j]].active by {
                if j > 0 {
                    assert(rest[j - 1] == handed[j]);
                    assert(!q.segments[handed[j]].active);
                }
            }
            assert forall|i: int, j: int|
                0 <= i < handed.len() && 0 <= j < handed.len() && i != j implies handed[i]
                != handed[j] by {
                if i == 0 {
                    assert(rest[j - 1] == handed[j]);
                } else if j == 0 {
                    assert(rest[i - 1] == handed[i]);
                } else {
                    assert(rest[i - 1] == handed[i] && rest[j - 1] == handed[j]);
                }
            }
        }
    }
}

/// Whether a pool has nothing for a free worker: every segment with bytes missing is
/// some worker's, and none has enough left to share.
pub open spec fn is_spent(segments: Seq<SegmentView>, min_split: int) -> bool {
    forall|k: int|
        0 <= k < segments.len() ==> {
            let s = #[trigger] segments[k];
            &&& s.start + s.done <= s.end ==> s.active
            &&& s.end - (s.start + s.done) + 1 < 2 * min_split || s.end - (s.start + s.done) + 1 < 2
        }
}

/// A connection that becomes free gets work while there is any: after a worker has
/// reported success, either as many run as may, or every segment with bytes missing
/// is some worker's and none has enough left to share. As many run as before,
/// without the one that reported and with those that are started.
pub proof fn law_a_free_connection_gets_work(pool: PoolView, at: int)
    requires
        pool.wf(),
        pool.fatal is None,
        !(pool.plan.total is None && pool.plan.segments.len() == 1),
        0 <= at < pool.plan.segments.len(),
        pool.plan.segments[at].active,
        pool.in_flight > 0,
        2 * pool.min_split <= u64::MAX,
        forall|i: int|
            0 <= i < pool.plan.segments.len() ==> (#[trigger] pool.plan.segments[i]).end < u64::MAX,
    ensures
        ({
            let (after, handed) = pool.reported(at, None);
            &&& after.in_flight == after.limit || is_spent(after.plan.segments, after.min_split)
            &&& after.limit == pool.limit && after.min_split == pool.min_split
            &&& after.in_flight == pool.in_flight - 1 + handed.len()
            &&& after.fatal is None && after.ended == pool.ended
            &&& forall|j: int|
                0 <= j < handed.len() ==> 0 <= #[trigger] handed[j] < after.plan.segments.len()
                    && after.plan.segments[handed[j]].active
                    && !after.plan.segments[handed[j]].is_complete()
            &&& handed.no_duplicates()
        }),
{
    let freed = with_active(pool.plan, at, false);
    let room = (pool.limit - (pool.in_flight - 1)) as nat;
    assert forall|i: int| 0 <= i < freed.segments.len() implies (
    #[trigger] freed.segments[i]).end < u64::MAX by {
        assert(pool.plan.segments[i].end < u64::MAX);
    }
    let (q, handed) = topped_up(freed, room, pool.min_split, true);
    law_no_worker_idles_while_there_is_work(freed, room, pool.min_split);
    law_what_is_handed_out_is_work(freed, room, pool.min_split, true);
    lemma_topped_up_ends(freed, room, pool.min_split, true);
    if handed.len() != room {
        assert forall|k: int| 0 <= k < q.segments.len() implies {
            let s = #[trigger] q.segments[k];
            &&& s.start + s.done <= s.end ==> s.active
            &&& s.end - (s.start + s.done) + 1 < 2 * pool.min_split || s.end - (s.start + s.done)
                + 1 < 2
        } by {
            lemma_none_is_idle(q.segments, 0, k);
            plan::law_a_segment_in_numbers(q.segments[k]);
            let s = q.segments[k];
            if s.end - (s.start + s.done) + 1 >= 2 * pool.min_split && s.end - (s.start + s.done)
                + 1 >= 2 {
                plan::law_what_is_worth_splitting_is_split(q, pool.min_split, k);
            }
        }
    }
}

/// The first workers are started on what nobody has, as many as may run, until
/// nothing with bytes missing is left; and nothing is split for them.
pub proof fn law_a_launch_starts_what_it_can(pool: PoolView)
    requires
        pool.wf(),
        forall|i: int|
            0 <= i < pool.plan.segments.len() ==> (#[trigger] pool.plan.segments[i]).end < u64::MAX,
    ensures
        ({
            let (after, handed) = pool.filled(false);
            &&& after.in_flight == pool.in_flight + handed.len()
            &&& after.in_flight <= after.limit && after.limit == pool.limit
            &&& after.in_flight == after.limit || forall|k: int|
                0 <= k < after.plan.segments.len() ==> {
                    let s = #[trigger] after.plan.segments[k];
                    s.start + s.done <= s.end ==> s.active
                }
            &&& after.plan.segments.len() == pool.plan.segments.len()
        }),
{
    let room = (pool.limit - pool.in_flight) as nat;
    lemma_launch(pool.plan, room, pool.min_split);
    lemma_topped_up(pool.plan, room, pool.min_split, false);
    lemma_topped_up_ends(pool.plan, room, pool.min_split, false);
    let (q, handed) = topped_up(pool.plan, room, pool.min_split, false);
    if handed.len() != room {
        assert forall|k: int| 0 <= k < q.segments.len() implies {
            let s = #[trigger] q.segments[k];
            s.start + s.done <= s.end ==> s.active
        } by {
            lemma_none_is_idle(q.segments, 0, k);
            plan::law_a_segment_in_numbers(q.segments[k]);
        }
    }
}

proof fn lemma_launch(p: PlanView, room: nat, min_split: int)
    ensures
        ({
            let (q, handed) = topped_up(p, room, min_split, false);
            &&& handed.len() == room || first_idle(q.segments, 0) is None
            &&& q.segments.len() == p.segments.len()
        }),
    decreases room,
{
    if room > 0 {
        if let Some((q, at)) = next_work(p, min_split, false) {
            lemma_first_idle_bounds(p.segments, 0);
            lemma_launch(q, (room - 1) as nat, min_split);
        }
    }
}

/// With ranges as many connections are used as were asked for, at least one;
/// without, exactly one. None runs yet, and nothing has failed.
pub proof fn law_a_pool_opens_as_asked(
    plan: PlanView,
    use_ranges: bool,
    max_connections: int,
    min_split: int,
)
    ensures
        ({
            let pool = PoolView::opening(plan, use_ranges, max_connections, min_split);
            &&& use_ranges && max_connections >= 1 ==> pool.limit == max_connections
            &&& !use_ranges || max_connections < 1 ==> pool.limit == 1
            &&& pool.plan == plan && pool.min_split == min_split
            &&& pool.in_flight == 0 && pool.fatal is None && !pool.ended
        }),
{
}

/// The first failure is the download's, whatever follows; with it nothing more is
/// handed out, and no progress is lost.
pub proof fn law_the_first_failure_is_the_downloads(
    pool: PoolView,
    at: int,
    e: ErrorView,
    fault: Option<ErrorView>,
)
    requires
        0 <= at < pool.plan.segments.len(),
    ensures
        pool.fatal is None ==> pool.reported(at, Some(e)).0.fatal == Some(e),
        pool.fatal is None ==> pool.reported(at, Some(e)).0.verdict() == Some(e),
        pool.fatal is Some ==> pool.reported(at, fault).0.fatal == pool.fatal,
        pool.fatal is Some ==> pool.reported(at, fault).0.verdict() == pool.fatal,
        pool.fatal is Some || fault is Some ==> pool.reported(at, fault).1.len() == 0,
        pool.fatal is Some || fault is Some ==> pool.reported(at, fault).0.plan.segments
            == pool.plan.segments.update(
            at,
            SegmentView { active: false, ..pool.plan.segments[at] },
        ),
        pool.cancelled().plan == pool.plan,
        pool.fatal is None ==> pool.cancelled().verdict() == Some(ErrorView::Cancelled),
        pool.fatal is Some ==> pool.cancelled().verdict() == pool.fatal,
{
}

/// A download with bytes missing never passes for a finished one, and one with none
/// missing and no failure always does.
pub proof fn law_missing_bytes_are_no_success(pool: PoolView, k: int)
    requires
        pool.wf(),
        pool.plan.total is Some,
        0 <= k < pool.plan.segments.len(),
        forall|i: int|
            0 <= i < pool.plan.segments.len() ==> (#[trigger] pool.plan.segments[i]).end < u64::MAX,
    ensures
        pool.plan.segments[k].start + pool.plan.segments[k].done <= pool.plan.segments[k].end
            ==> pool.verdict() is Some,
        (forall|i: int|
            0 <= i < pool.plan.segments.len() ==> {
                let s = #[trigger] pool.plan.segments[i];
                s.start + s.done > s.end
            }) && pool.fatal is None ==> pool.verdict() is None,
{
    plan::law_a_segment_in_numbers(pool.plan.segments[k]);
    if forall|i: int|
        0 <= i < pool.plan.segments.len() ==> {
            let s = #[trigger] pool.plan.segments[i];
            s.start + s.done > s.end
        } {
        assert forall|i: int| 0 <= i < pool.plan.segments.len() implies (
        #[trigger] pool.plan.segments[i]).is_complete() by {
            plan::law_a_segment_in_numbers(pool.plan.segments[i]);
        }
    }
}

/// A finished file is as long as the server said, or else as what arrived.
pub proof fn law_a_finished_file_has_its_length(p: PlanView)
    ensures
        p.total matches Some(t) ==> final_length(p) == t,
        p.total is None && p.segments.len() == 1 ==> final_length(p)
            == p.segments[0].effective_done(),
{
    if p.segments.len() == 1 {
        reveal_with_fuel(plan::sum_done, 2);
        assert(p.segments.drop_last() =~= Seq::<SegmentView>::empty());
    }
}

/// The first bytes of a file are asked only about a file that nothing else has
/// classified; then they decide.
pub proof fn law_first_bytes_are_the_last_resort(category: Category, head: Seq<u8>)
    ensures
        category != Category::Other ==> final_category(category, head) == category,
        categorize::category_of_magic(head) matches Some(c) ==> final_category(
            Category::Other,
            head,
        ) == c,
        categorize::category_of_magic(head) is None ==> final_category(Category::Other, head)
            == Category::Other,
{
}

/// The caller's name is the file's, made safe; without one the server's is.
pub proof fn law_the_callers_name_comes_first(name: Seq<char>, info: RemoteInfoView)
    ensures
        naming::is_good_name(name) ==> chosen_name(Some(name), info) == name,
        chosen_name(Some(name), info) == naming::sanitized(name),
        chosen_name(None, info) == info.filename,
{
    if naming::is_good_name(name) {
        naming::law_a_good_name_stays(name);
    }
}

/// A worker with bytes to fetch fetches them, unless it was stopped; one with none is
/// done.
pub proof fn law_a_worker_fetches_what_is_missing(
    seg: SegmentView,
    stopped: bool,
    step: SegmentStep,
)
    requires
        is_segment_begin(seg, stopped, step),
        seg.end < u64::MAX,
    ensures
        stopped ==> (step matches SegmentStep::Fail(e) && e@ == ErrorView::Cancelled),
        !stopped && seg.start + seg.done <= seg.end ==> step is Stream,
        !stopped && seg.start + seg.done > seg.end ==> step is Done,
{
    plan::law_a_segment_in_numbers(seg);
}

/// Progress is saved again as soon as a second has passed.
pub proof fn law_a_second_is_all_that_is_lost(since_ms: u64)
    ensures
        is_checkpoint_due(since_ms) <==> since_ms >= 1000,
{
}

/// A single stream of unknown size is over when its worker says so, and then it is
/// a success, however much there was of it.
pub proof fn law_a_stream_of_unknown_size_ends_with_its_body(pool: PoolView)
    requires
        pool.fatal is None,
        pool.plan.total is None,
        pool.plan.segments.len() == 1,
    ensures
        ({
            let (after, handed) = pool.reported(0, None);
            &&& handed.len() == 0
            &&& after.verdict() is None
            &&& after.in_flight == pool.in_flight - 1
        }),
{
}

} // verus!
