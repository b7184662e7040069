//! Resume state, persisted beside the partial file.
//!
//! Segment cursors are checkpointed to disk on a timer, so a power cut costs
//! seconds and not the transfer. State that cannot be trusted is worth nothing:
//! an unknown version, an empty plan or a changed remote file means starting
//! over.

use vstd::prelude::*;

use crate::naming::{opt_text, FilePath, PathView};
use crate::plan;
use crate::plan::{PlanView, SegmentSnapshot, SegmentView};
use crate::probe::{RemoteInfo, RemoteInfoView};
use crate::text;

verus! {

/// Bumped whenever the on-disk shape changes. An unrecognised version is
/// discarded rather than guessed at.
pub const CONTROL_VERSION: u32 = 1;

/// What a control file records.
#[derive(Debug, Clone, PartialEq, Eq)]
pub struct DownloadState {
    pub version: u32,
    /// URL the user originally asked for.
    pub url: String,
    /// URL after redirects, which is what segments actually fetch.
    pub final_url: String,
    pub total_size: Option<u64>,
    pub validator: Option<String>,
    pub validator_is_etag: bool,
    pub filename: String,
    pub target: FilePath,
    pub segments: Vec<SegmentSnapshot>,
}

/// What a control file records, mathematically.
#[verifier::ext_equal]
pub struct StateView {
    pub version: u32,
    pub url: Seq<char>,
    pub final_url: Seq<char>,
    pub total_size: Option<u64>,
    pub validator: Option<Seq<char>>,
    pub validator_is_etag: bool,
    pub filename: Seq<char>,
    pub target: PathView,
    pub segments: Seq<SegmentSnapshot>,
}

impl View for DownloadState {
    type V = StateView;

    open spec fn view(&self) -> StateView {
        StateView {
            version: self.version,
            url: self.url@,
            final_url: self.final_url@,
            total_size: self.total_size,
            validator: opt_text(self.validator),
            validator_is_etag: self.validator_is_etag,
            filename: self.filename@,
            target: self.target@,
            segments: self.segments@,
        }
    }
}

/// The segments a list of snapshots describes.
pub open spec fn restored_segments(snapshots: Seq<SegmentSnapshot>) -> Seq<SegmentView> {
    snapshots.map_values(|s: SegmentSnapshot| s.restored())
}

impl StateView {
    /// What is recorded of a download of `info` from `url` to `target`.
    pub open spec fn of(
        url: Seq<char>,
        info: RemoteInfoView,
        target: PathView,
        segments: Seq<SegmentSnapshot>,
    ) -> StateView {
        StateView {
            version: CONTROL_VERSION,
            url,
            final_url: info.final_url.text,
            total_size: info.total_size,
            validator: info.validator,
            validator_is_etag: info.validator_is_etag,
            filename: info.filename,
            target,
            segments,
        }
    }

    /// Whether recorded state can be used at all.
    pub open spec fn is_usable(self) -> bool {
        self.version == CONTROL_VERSION && self.segments.len() > 0
    }

    /// Whether the state is still valid for what the server is serving now: same
    /// URL, same size, same validator (or none on both sides), and ranges.
    pub open spec fn is_resumable_for(self, url: Seq<char>, info: RemoteInfoView) -> bool {
        &&& self.url == url
        &&& self.total_size == info.total_size
        &&& self.validator == info.validator
        &&& info.supports_ranges
    }

    /// Bytes already fetched, never counting a segment for more than its length.
    pub open spec fn bytes_done(self) -> int {
        plan::sum_done(restored_segments(self.segments))
    }
}

/// The file that a save of the state at `control` is written to first.
pub open spec fn staged(control: PathView) -> PathView {
    PathView { dir: control.dir, name: control.name + ".tmp"@ }
}

/// A copy of an optional string.
pub fn copy_opt(v: &Option<String>) -> (r: Option<String>)
    ensures
        opt_text(r) == opt_text(*v),
{
    match v {
        Some(s) => Some(s.clone()),
        None => None,
    }
}

/// Whether two optional strings are the same.
pub fn same_opt(a: &Option<String>, b: &Option<String>) -> (r: bool)
    ensures
        r == (opt_text(*a) == opt_text(*b)),
{
    match (a, b) {
        (Some(x), Some(y)) => text::same_text(x.as_str(), y.as_str()),
        (None, None) => true,
        _ => false,
    }
}

impl DownloadState {
    pub fn new(url: &str, info: &RemoteInfo, target: &FilePath, segments: Vec<SegmentSnapshot>) -> (r:
        DownloadState)
        ensures
            r@ == StateView::of(url@, info@, target@, segments@),
    {
        DownloadState {
            version: CONTROL_VERSION,
            url: url.to_owned(),
            final_url: info.final_url.text.clone(),
            total_size: info.total_size,
            validator: copy_opt(&info.validator),
            validator_is_etag: info.validator_is_etag,
            filename: info.filename.clone(),
            target: target.copied(),
            segments,
        }
    }

    /// Vet state read from a control file. `None` for an unsupported version or
    /// an empty plan: in both cases starting over is the correct answer.
    pub fn vet(state: DownloadState) -> (r: Option<DownloadState>)
        ensures
            match r {
                Some(s) => s@ == state@ && state@.is_usable(),
                None => !state@.is_usable(),
            },
    {
        if state.version != CONTROL_VERSION || state.segments.len() == 0 {
            None
        } else {
            Some(state)
        }
    }

    /// The file a save is written to before it replaces the control file, so an
    /// interrupted save leaves the previous good state in place.
    pub fn staging_path(control: &FilePath) -> (r: FilePath)
        ensures
            r@ == staged(control@),
    {
        let mut name = control.name.clone();
        name.append(".tmp");
        FilePath { dir: control.dir.clone(), name }
    }

    /// Is this state still valid for what the server is serving right now?
    ///
    /// A changed size or validator means the remote file was replaced, so the
    /// bytes already on disk belong to a different file and must be thrown away.
    /// A server that stopped sending a validator gives no way to prove the file
    /// is unchanged, so that is no either.
    pub fn is_resumable_for(&self, url: &str, info: &RemoteInfo) -> (r: bool)
        ensures
            r == self@.is_resumable_for(url@, info@),
    {
        if !text::same_text(self.url.as_str(), url) {
            return false;
        }
        let same_size = match (self.total_size, info.total_size) {
            (Some(a), Some(b)) => a == b,
            (None, None) => true,
            _ => false,
        };
        same_size && same_opt(&self.validator, &info.validator) && info.supports_ranges
    }

    pub fn bytes_done(&self) -> (r: u64)
        requires
            self@.bytes_done() <= u64::MAX,
        ensures
            r == self@.bytes_done(),
    {
        let ghost all = restored_segments(self.segments@);
        let mut sum: u64 = 0;
        let mut i: usize = 0;
        assert(all.take(0) =~= Seq::<SegmentView>::empty());
        while i < self.segments.len()
            invariant
                i <= self.segments.len(),
                all == restored_segments(self.segments@),
                sum == plan::sum_done(all.take(i as int)),
                plan::sum_done(all) <= u64::MAX,
            decreases self.segments.len() - i,
        {
            let s: SegmentSnapshot = self.segments[i];
            let len: u64 = s.end.saturating_sub(s.start).saturating_add(1);
            let part: u64 = if s.done <= len { s.done } else { len };
            proof {
                assert(all.take(i + 1).drop_last() =~= all.take(i as int));
                assert(all[i as int] == s.restored());
                plan::lemma_sum_done_monotonic(all, i + 1);
            }
            sum = sum + part;
            i = i + 1;
        }
        assert(all.take(i as int) =~= all);
        sum
    }
}

/// The control file of a running plan records the plan's own progress, and the
/// plan rebuilt from it goes on from there.
pub proof fn law_checkpoint_keeps_the_progress(
    url: Seq<char>,
    info: RemoteInfoView,
    target: PathView,
    running: PlanView,
)
    requires
        plan::max_index(running.snapshots()) < u32::MAX,
    ensures
        ({
            let state = StateView::of(url, info, target, running.snapshots());
            let resumed = PlanView::restored(state.segments, running.total);
            &&& state.bytes_done() == plan::sum_done(running.segments)
            &&& plan::sum_done(resumed.segments) == plan::sum_done(running.segments)
            &&& running.segments.len() > 0 ==> state.is_usable()
            &&& info.supports_ranges ==> state.is_resumable_for(url, info)
        }),
{
    plan::law_resume_round_trips(running);
}

/// Saved progress is used only for the very file it was made for: of the same URL
/// and size, with the same validator, from a server that takes ranges. For that
/// file it is used. So two servers that agree in these are treated alike.
pub proof fn law_progress_is_used_for_the_same_file_alone(
    state: StateView,
    url: Seq<char>,
    info: RemoteInfoView,
)
    ensures
        state.url != url ==> !state.is_resumable_for(url, info),
        state.total_size != info.total_size ==> !state.is_resumable_for(url, info),
        state.validator != info.validator ==> !state.is_resumable_for(url, info),
        !info.supports_ranges ==> !state.is_resumable_for(url, info),
        state.url == url && state.total_size == info.total_size && state.validator
            == info.validator && info.supports_ranges ==> state.is_resumable_for(url, info),
{
}

/// What is saved of a download can be read again, and is good for as long as the
/// server serves the same file.
pub proof fn law_a_saved_download_resumes(
    url: Seq<char>,
    info: RemoteInfoView,
    now: RemoteInfoView,
    target: PathView,
    segments: Seq<SegmentSnapshot>,
)
    requires
        segments.len() > 0,
        now.supports_ranges,
        now.total_size == info.total_size,
        now.validator == info.validator,
    ensures
        StateView::of(url, info, target, segments).is_usable(),
        StateView::of(url, info, target, segments).is_resumable_for(url, now),
        StateView::of(url, info, target, segments).segments == segments,
        StateView::of(url, info, target, segments).target == target,
{
}

/// Saved state of another version, or with nothing in it, is not used.
pub proof fn law_foreign_state_is_not_used(state: StateView)
    ensures
        state.version != CONTROL_VERSION ==> !state.is_usable(),
        state.segments.len() == 0 ==> !state.is_usable(),
{
}

/// A save is written beside the state it replaces, and not over it.
pub proof fn law_a_save_leaves_the_last_one_in_place(control: PathView)
    ensures
        staged(control).dir == control.dir,
        staged(control) != control,
        control.name.is_prefix_of(staged(control).name),
{
    reveal_strlit(".tmp");
    let a = staged(control).name;
    assert(a.take(control.name.len() as int) =~= control.name);
    assert(a.len() == control.name.len() + 4);
}

} // verus!
