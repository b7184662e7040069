//! The download list: one owner for every download in the app.
//!
//! Rows queue, pause, resume, fail, retry and survive a restart. Four rules hold
//! the design together:
//!
//! 1. **Exactly one place decides a download has ended.** The attempt reports
//!    how it ended; `pause`, `cancel` and `remove` only record an *intent* and
//!    trip the cancel token.
//! 2. **A cancelled download keeps its scratch files.** Deleting them is decided
//!    here, and only for a real cancel or a removal.
//! 3. **Files, clocks and tasks are the caller's.** Every operation takes what
//!    has to be known of them and says what has to be done.
//! 4. **Only the current attempt may write to a row.** Each attempt carries a
//!    generation; one whose generation no longer matches writes nothing.
//!
//! Browser headers are held in memory and never persisted: a stolen session
//! cookie is worth more than a resumed download.

use std::collections::HashMap;

use reqwest::header::HeaderMap;
use vstd::prelude::*;

use crate::categorize::Category;
use crate::download::{CancelToken, DownloadOutcome, DownloadRequest, StartInfo};
use crate::error::{joined, Error, ErrorView};
use crate::headers;
use crate::link::{link_result, parsed_link, Link, LinkView};
use crate::model::{
    copy_path, opt_path, rows, DownloadEntry, DownloadId, EntryView, Event, EventView, NewDownload,
    Status,
};
use crate::naming;
use crate::naming::{opt_text, FilePath, PathView};
use crate::progress::ProgressSnapshot;
use crate::state::copy_opt;
use crate::store;
use crate::text;

verus! {

broadcast use vstd::std_specs::hash::group_hash_axioms;

/// Simultaneous downloads. Eight files sharing a pipe finish no sooner than
/// four, and the connection count *within* a download is where the speed comes
/// from.
pub const DEFAULT_MAX_ACTIVE: usize = 4;

// --------------------------------------------------------------------- errors
/// Why the list refused. `add` cannot fail, and `pause` can only fail by naming
/// a row that is not there or not running.
#[derive(Debug, Clone, PartialEq, Eq)]
pub enum ManagerError {
    NotFound(DownloadId),
    /// The UI should not have offered the button.
    WrongState { id: DownloadId, status: Status, action: &'static str },
    /// A stored row whose URL no longer parses.
    BadUrl { id: DownloadId, url: String },
}

/// What a refusal is, mathematically.
#[verifier::ext_equal]
pub enum ManagerErrorView {
    NotFound(u64),
    WrongState { id: u64, status: Status, action: Seq<char> },
    BadUrl { id: u64, url: Seq<char> },
}

impl View for ManagerError {
    type V = ManagerErrorView;

    open spec fn view(&self) -> ManagerErrorView {
        match self {
            ManagerError::NotFound(id) => ManagerErrorView::NotFound(*id),
            ManagerError::WrongState { id, status, action } => ManagerErrorView::WrongState {
                id: *id,
                status: *status,
                action: action@,
            },
            ManagerError::BadUrl { id, url } => ManagerErrorView::BadUrl { id: *id, url: url@ },
        }
    }
}

impl ManagerErrorView {
    /// What the refusal says.
    pub open spec fn message(self) -> Seq<char> {
        match self {
            ManagerErrorView::NotFound(id) => "no download with id "@ + text::decimal(id as nat),
            ManagerErrorView::WrongState { id, status, action } => "cannot "@ + action
                + " download "@ + text::decimal(id as nat) + ": it is "@ + status.name(),
            ManagerErrorView::BadUrl { id, url } => "download "@ + text::decimal(id as nat)
                + " has an unusable url: "@ + url,
        }
    }
}

impl ManagerError {
    /// What the refusal says.
    pub fn message(&self) -> (r: String)
        ensures
            r@ == self@.message(),
    {
        match self {
            ManagerError::NotFound(id) => {
                joined("no download with id ", text::decimal_of(*id).as_str())
            },
            ManagerError::WrongState { id, status, action } => {
                let mut out = joined("cannot ", action);
                out.append(" download ");
                out.append(text::decimal_of(*id).as_str());
                out.append(": it is ");
                out.append(status.label());
                out
            },
            ManagerError::BadUrl { id, url } => {
                let mut out = joined("download ", text::decimal_of(*id).as_str());
                out.append(" has an unusable url: ");
                out.append(url.as_str());
                out
            },
        }
    }
}

// ---------------------------------------------------------------------- state
/// Why a running download was asked to stop.
///
/// A cancelled transfer cannot say whether the user hit pause or delete, and the
/// two demand opposite treatment of the `.part` file.
#[derive(Debug, Clone, Copy, PartialEq, Eq, Structural)]
pub enum Intent {
    Pause,
    Cancel,
    Remove { delete_file: bool },
}

/// Per-download state that is not shown in the UI and not written to disk.
struct Runtime {
    headers: HeaderMap,
    target_dir: Option<String>,
    cancel: CancelToken,
    intent: Option<Intent>,
    /// Which attempt owns this download. No attempt ever runs under generation
    /// zero, so a restored row cannot be mistaken for a live one.
    generation: u64,
    /// Learned once the engine resolves the destination. `None` means there is
    /// nothing on disk to clean up.
    part: Option<FilePath>,
    control: Option<FilePath>,
}

/// What per-download state is, mathematically.
#[verifier::ext_equal]
pub struct RuntimeView {
    pub headers: Map<Seq<char>, Seq<Seq<u8>>>,
    pub target_dir: Option<Seq<char>>,
    pub cancelled: bool,
    pub intent: Option<Intent>,
    pub generation: u64,
    pub part: Option<PathView>,
    pub control: Option<PathView>,
}

impl View for Runtime {
    type V = RuntimeView;

    closed spec fn view(&self) -> RuntimeView {
        RuntimeView {
            headers: headers::entries(self.headers),
            target_dir: opt_text(self.target_dir),
            cancelled: self.cancel@,
            intent: self.intent,
            generation: self.generation,
            part: opt_path(self.part),
            control: opt_path(self.control),
        }
    }
}

impl RuntimeView {
    pub open spec fn fresh(
        headers: Map<Seq<char>, Seq<Seq<u8>>>,
        target_dir: Option<Seq<char>>,
    ) -> RuntimeView {
        RuntimeView {
            headers,
            target_dir,
            cancelled: false,
            intent: None,
            generation: 0,
            part: None,
            control: None,
        }
    }

    /// Asked to stop, for this reason.
    pub open spec fn stopped(self, intent: Intent) -> RuntimeView {
        RuntimeView { intent: Some(intent), cancelled: true, ..self }
    }

    /// Handed to a new attempt. The old token is latched, so a fresh one goes
    /// in; the intent described a stop the user has since taken back.
    pub open spec fn claimed(self, generation: u64) -> RuntimeView {
        RuntimeView { generation, intent: None, cancelled: false, ..self }
    }

    /// The scratch files of this download.
    pub open spec fn scratch(self) -> ScratchView {
        ScratchView { part: self.part, control: self.control }
    }
}

impl Runtime {
    fn new(headers: HeaderMap, target_dir: Option<String>) -> (r: Runtime)
        ensures
            r@ == RuntimeView::fresh(headers::entries(headers), opt_text(target_dir)),
    {
        Runtime {
            headers,
            target_dir,
            cancel: CancelToken::new(),
            intent: None,
            generation: 0,
            part: None,
            control: None,
        }
    }

    fn stop(&mut self, intent: Intent)
        ensures
            final(self)@ == old(self)@.stopped(intent),
    {
        self.intent = Some(intent);
        self.cancel.cancel();
    }

    fn claim(&mut self, generation: u64)
        ensures
            final(self)@ == old(self)@.claimed(generation),
    {
        self.generation = generation;
        self.intent = None;
        self.cancel = CancelToken::new();
    }

    fn scratch(&self) -> (r: Scratch)
        ensures
            r@ == self@.scratch(),
    {
        Scratch { part: copy_path(&self.part), control: copy_path(&self.control) }
    }
}

/// The files a download leaves behind while it is not finished, as far as they
/// are known.
#[derive(Debug, Clone, PartialEq, Eq)]
pub struct Scratch {
    pub part: Option<FilePath>,
    pub control: Option<FilePath>,
}

/// What scratch files are, mathematically.
#[verifier::ext_equal]
pub struct ScratchView {
    pub part: Option<PathView>,
    pub control: Option<PathView>,
}

impl ScratchView {
    pub open spec fn none() -> ScratchView {
        ScratchView { part: None, control: None }
    }
}

impl View for Scratch {
    type V = ScratchView;

    open spec fn view(&self) -> ScratchView {
        ScratchView { part: opt_path(self.part), control: opt_path(self.control) }
    }
}

impl Scratch {
    pub fn none() -> (r: Scratch)
        ensures
            r@ == ScratchView::none(),
    {
        Scratch { part: None, control: None }
    }
}

/// A sequence of ids without every occurrence of one of them.
pub open spec fn without(ids: Seq<u64>, id: u64) -> Seq<u64>
    decreases ids.len(),
{
    if ids.len() == 0 {
        Seq::empty()
    } else if ids.last() == id {
        without(ids.drop_last(), id)
    } else {
        without(ids.drop_last(), id).push(ids.last())
    }
}

/// The list, mathematically.
#[verifier::ext_equal]
pub struct ManagerView {
    pub next_id: u64,
    /// Monotonic across the whole list.
    pub next_gen: u64,
    /// Display order, oldest first.
    pub order: Seq<u64>,
    pub entries: Map<u64, EntryView>,
    pub runtime: Map<u64, RuntimeView>,
    pub max_active: int,
}

impl ManagerView {
    /// The order shows exactly the rows there are; ids and generations are below
    /// the next ones to hand out; every running row has its runtime.
    pub open spec fn wf(self) -> bool {
        &&& forall|id: u64| #[trigger] self.order.contains(id) <==> self.entries.dom().contains(id)
        &&& forall|id: u64| #[trigger]
            self.runtime.dom().contains(id) ==> self.entries.dom().contains(id)
                && self.runtime[id].generation <= self.next_gen
        &&& forall|id: u64| #[trigger]
            self.entries.dom().contains(id) ==> self.entries[id].id == id && id < self.next_id && (
            self.entries[id].status.active() ==> self.runtime.dom().contains(id))
        &&& self.max_active >= 1
    }

    /// Whether `generation` is still the attempt that owns this download.
    pub open spec fn is_current(self, id: u64, generation: u64) -> bool {
        self.runtime.dom().contains(id) && self.runtime[id].generation == generation
    }

    /// The list with another bound on how many downloads run.
    pub open spec fn limited(self, max_active: int) -> ManagerView {
        ManagerView {
            max_active: if max_active < 1 {
                1
            } else if max_active > 32 {
                32
            } else {
                max_active
            },
            ..self
        }
    }

    /// Whether an attempt has to stop: it no longer owns the download, or its
    /// token was tripped.
    pub open spec fn must_stop(self, id: u64, generation: u64) -> bool {
        !self.is_current(id, generation) || self.runtime[id].cancelled
    }

    /// The rows in display order.
    pub open spec fn listed(self) -> Seq<EntryView> {
        self.order.map_values(|id: u64| self.entries[id])
    }

    /// The list without a row.
    pub open spec fn forgotten(self, id: u64) -> ManagerView {
        ManagerView {
            order: without(self.order, id),
            entries: self.entries.remove(id),
            runtime: self.runtime.remove(id),
            ..self
        }
    }

    /// The list with one row replaced.
    pub open spec fn with_entry(self, id: u64, e: EntryView) -> ManagerView {
        ManagerView { entries: self.entries.insert(id, e), ..self }
    }

    /// The list with one row's runtime replaced.
    pub open spec fn with_runtime(self, id: u64, r: RuntimeView) -> ManagerView {
        ManagerView { runtime: self.runtime.insert(id, r), ..self }
    }

    /// The scratch files of a row, as far as they are known.
    pub open spec fn scratch(self, id: u64) -> ScratchView {
        if self.runtime.dom().contains(id) {
            self.runtime[id].scratch()
        } else {
            ScratchView::none()
        }
    }

    /// Whether a row could be resumed: its control file is known, and there.
    pub open spec fn resumable(self, id: u64, control_exists: bool) -> bool {
        self.scratch(id).control is Some && control_exists
    }
}

/// The download list.
pub struct Manager {
    next_id: DownloadId,
    next_gen: u64,
    order: Vec<DownloadId>,
    entries: HashMap<DownloadId, DownloadEntry>,
    runtime: HashMap<DownloadId, Runtime>,
    max_active: usize,
}

impl View for Manager {
    type V = ManagerView;

    closed spec fn view(&self) -> ManagerView {
        ManagerView {
            next_id: self.next_id,
            next_gen: self.next_gen,
            order: self.order@,
            entries: self.entries@.map_values(|e: DownloadEntry| e@),
            runtime: self.runtime@.map_values(|r: Runtime| r@),
            max_active: self.max_active as int,
        }
    }
}

/// One run of a download: who it is for, and what to ask the engine.
#[derive(Debug, Clone, PartialEq, Eq)]
pub struct Attempt {
    pub id: DownloadId,
    pub generation: u64,
    pub url: Link,
    pub filename: Option<String>,
    pub target_dir: Option<String>,
}

/// What an attempt is, mathematically.
#[verifier::ext_equal]
pub struct AttemptView {
    pub id: u64,
    pub generation: u64,
    pub url: LinkView,
    pub filename: Option<Seq<char>>,
    pub target_dir: Option<Seq<char>>,
}

impl View for Attempt {
    type V = AttemptView;

    open spec fn view(&self) -> AttemptView {
        AttemptView {
            id: self.id,
            generation: self.generation,
            url: self.url@,
            filename: opt_text(self.filename),
            target_dir: opt_text(self.target_dir),
        }
    }
}

// ------------------------------------------------------------------ primitives
impl Manager {
    fn put_entry(&mut self, id: DownloadId, e: DownloadEntry)
        ensures
            final(self)@ == old(self)@.with_entry(id, e@),
    {
        self.entries.insert(id, e);
        assert(self@.entries =~= old(self)@.entries.insert(id, e@));
    }

    fn put_runtime(&mut self, id: DownloadId, r: Runtime)
        ensures
            final(self)@ == old(self)@.with_runtime(id, r@),
    {
        self.runtime.insert(id, r);
        assert(self@.runtime =~= old(self)@.runtime.insert(id, r@));
    }

    /// Take a row's runtime out, to put it back changed.
    fn take_runtime(&mut self, id: DownloadId) -> (r: Option<Runtime>)
        ensures
            match r {
                Some(rt) => old(self)@.runtime.dom().contains(id) && rt@
                    == old(self)@.runtime[id],
                None => !old(self)@.runtime.dom().contains(id),
            },
            final(self)@ == (ManagerView {
                runtime: old(self)@.runtime.remove(id),
                ..old(self)@
            }),
    {
        let r = self.runtime.remove(&id);
        assert(self@.runtime =~= old(self)@.runtime.remove(id));
        r
    }

    fn entry_of(&self, id: DownloadId) -> (r: Option<DownloadEntry>)
        ensures
            match r {
                Some(e) => self@.entries.dom().contains(id) && e@ == self@.entries[id],
                None => !self@.entries.dom().contains(id),
            },
    {
        match self.entries.get(&id) {
            Some(e) => Some(e.copied()),
            None => None,
        }
    }

    fn scratch_of(&self, id: DownloadId) -> (r: Scratch)
        ensures
            r@ == self@.scratch(id),
    {
        match self.runtime.get(&id) {
            Some(rt) => rt.scratch(),
            None => Scratch::none(),
        }
    }

    fn intent_of(&self, id: DownloadId) -> (r: Option<Intent>)
        ensures
            r == (if self@.runtime.dom().contains(id) {
                self@.runtime[id].intent
            } else {
                None
            }),
    {
        match self.runtime.get(&id) {
            Some(rt) => rt.intent,
            None => None,
        }
    }

    fn forget(&mut self, id: DownloadId)
        ensures
            final(self)@ == old(self)@.forgotten(id),
    {
        let ghost before = self@;
        let ghost before_entries = self.entries@;
        let ghost before_runtime = self.runtime@;
        self.entries.remove(&id);
        self.runtime.remove(&id);
        let mut kept: Vec<DownloadId> = Vec::new();
        let mut i: usize = 0;
        assert(self.order@.take(0) =~= Seq::<u64>::empty());
        while i < self.order.len()
            invariant
                i <= self.order.len(),
                kept@ == without(self.order@.take(i as int), id),
                self.entries@ == before_entries.remove(id),
                self.runtime@ == before_runtime.remove(id),
                self.order@ == before.order,
                self.next_id == before.next_id,
                self.next_gen == before.next_gen,
                self.max_active == before.max_active,
            decreases self.order.len() - i,
        {
            let x: DownloadId = self.order[i];
            proof {
                assert(self.order@.take(i + 1).drop_last() =~= self.order@.take(i as int));
            }
            if x != id {
                kept.push(x);
            }
            i = i + 1;
        }
        proof {
            assert(self.order@.take(i as int) =~= self.order@);
        }
        self.order = kept;
        assert(self@.entries =~= before.entries.remove(id));
        assert(self@.runtime =~= before.runtime.remove(id));
    }

    /// True while `generation` is still the attempt that owns this download.
    pub fn is_current(&self, id: DownloadId, generation: u64) -> (r: bool)
        ensures
            r == self@.is_current(id, generation),
    {
        match self.runtime.get(&id) {
            Some(rt) => rt.generation == generation,
            None => false,
        }
    }

    /// Whether an attempt has to stop: it no longer owns the download, or its
    /// token was tripped.
    pub fn must_stop(&self, id: DownloadId, generation: u64) -> (r: bool)
        ensures
            r == self@.must_stop(id, generation),
    {
        match self.runtime.get(&id) {
            Some(rt) => rt.generation != generation || rt.cancel.is_cancelled(),
            None => true,
        }
    }
}

proof fn lemma_without_contains(ids: Seq<u64>, id: u64, x: u64)
    ensures
        without(ids, id).contains(x) <==> ids.contains(x) && x != id,
    decreases ids.len(),
{
    if ids.len() > 0 {
        let front = ids.drop_last();
        lemma_without_contains(front, id, x);
        assert(ids =~= front.push(ids.last()));
        assert(ids.contains(x) <==> front.contains(x) || ids.last() == x) by {
            if ids.contains(x) {
                let i = choose|i: int| 0 <= i < ids.len() && ids[i] == x;
                if i < front.len() {
                    assert(front[i] == x);
                }
            }
            if front.contains(x) {
                let i = choose|i: int| 0 <= i < front.len() && front[i] == x;
                assert(ids[i] == x);
            }
            assert(ids[ids.len() - 1] == ids.last());
        }
        if ids.last() != id {
            let kept = without(front, id);
            let all = kept.push(ids.last());
            assert(all.contains(x) <==> kept.contains(x) || ids.last() == x) by {
                if all.contains(x) {
                    let i = choose|i: int| 0 <= i < all.len() && all[i] == x;
                    if i < kept.len() {
                        assert(kept[i] == x);
                    }
                }
                if kept.contains(x) {
                    let i = choose|i: int| 0 <= i < kept.len() && kept[i] == x;
                    assert(all[i] == x);
                }
                assert(all[all.len() - 1] == ids.last());
            }
        }
    }
}

proof fn lemma_forget_keeps_wf(m: ManagerView, id: u64)
    requires
        m.wf(),
    ensures
        m.forgotten(id).wf(),
{
    let after = m.forgotten(id);
    assert forall|x: u64| #[trigger] after.order.contains(x) <==> after.entries.dom().contains(x) by {
        lemma_without_contains(m.order, id, x);
        assert(m.order.contains(x) <==> m.entries.dom().contains(x));
    }
    assert forall|x: u64| #[trigger] after.runtime.dom().contains(x) implies after.entries.dom().contains(
        x,
    ) && after.runtime[x].generation <= after.next_gen by {
        assert(m.runtime.dom().contains(x));
    }
    assert forall|x: u64| #[trigger] after.entries.dom().contains(x) implies after.entries[x].id == x
        && x < after.next_id && (after.entries[x].status.active()
        ==> after.runtime.dom().contains(x)) by {
        assert(m.entries.dom().contains(x));
    }
}

// -------------------------------------------------------------------- restoring
/// The rows of a saved list, by id; the last one with each id.
pub open spec fn restored_entries(v: Seq<EntryView>) -> Map<u64, EntryView>
    decreases v.len(),
{
    if v.len() == 0 {
        Map::empty()
    } else {
        restored_entries(v.drop_last()).insert(v.last().id, v.last())
    }
}

/// The runtimes a saved list starts with. The headers were never saved.
pub open spec fn restored_runtime(v: Seq<EntryView>) -> Map<u64, RuntimeView>
    decreases v.len(),
{
    if v.len() == 0 {
        Map::empty()
    } else {
        let before = restored_runtime(v.drop_last());
        if v.last().status.finished() {
            before
        } else {
            before.insert(v.last().id, RuntimeView::fresh(headers::no_entries(), None))
        }
    }
}

/// The ids of a saved list, in order.
pub open spec fn ids_of(v: Seq<EntryView>) -> Seq<u64> {
    v.map_values(|e: EntryView| e.id)
}

/// The list a saved one becomes.
pub open spec fn restored_list(next_id: u64, v: Seq<EntryView>, max_active: int) -> ManagerView {
    ManagerView {
        next_id,
        next_gen: 0,
        order: ids_of(v),
        entries: restored_entries(v),
        runtime: restored_runtime(v),
        max_active: if max_active < 1 {
            1
        } else {
            max_active
        },
    }
}

proof fn lemma_restored(v: Seq<EntryView>, x: u64)
    ensures
        restored_entries(v).dom().contains(x) <==> ids_of(v).contains(x),
        restored_entries(v).dom().contains(x) ==> restored_entries(v)[x].id == x && exists|i: int|
            0 <= i < v.len() && restored_entries(v)[x] == #[trigger] v[i],
        restored_runtime(v).dom().contains(x) ==> restored_entries(v).dom().contains(x)
            && restored_runtime(v)[x] == RuntimeView::fresh(headers::no_entries(), None),
        restored_entries(v).dom().contains(x) && !restored_entries(v)[x].status.finished()
            ==> restored_runtime(v).dom().contains(x),
    decreases v.len(),
{
    if v.len() > 0 {
        let front = v.drop_last();
        lemma_restored(front, x);
        assert(ids_of(v) =~= ids_of(front).push(v.last().id));
        assert(ids_of(v).contains(x) <==> ids_of(front).contains(x) || v.last().id == x) by {
            if ids_of(v).contains(x) {
                let i = choose|i: int| 0 <= i < ids_of(v).len() && ids_of(v)[i] == x;
                if i < front.len() {
                    assert(ids_of(front)[i] == x);
                }
            }
            if ids_of(front).contains(x) {
                let i = choose|i: int| 0 <= i < ids_of(front).len() && ids_of(front)[i] == x;
                assert(ids_of(v)[i] == x);
            }
            assert(ids_of(v)[v.len() - 1] == v.last().id);
        }
        if x == v.last().id {
            assert(restored_entries(v)[x] == v[v.len() - 1]);
        } else if restored_entries(front).dom().contains(x) {
            let i = choose|i: int|
                0 <= i < front.len() && restored_entries(front)[x] == #[trigger] front[i];
            assert(restored_entries(v)[x] == v[i]);
        }
    }
}

impl Manager {
    /// Build the list over saved rows. Rows that were mid-flight come back
    /// paused: see the store.
    pub fn new(next_id: DownloadId, saved: Vec<DownloadEntry>, max_active: usize) -> (r: Manager)
        requires
            forall|i: int| 0 <= i < saved@.len() ==> (#[trigger] saved@[i]).id < next_id,
        ensures
            r@ == restored_list(next_id, rows(saved@), max_active as int),
            r@.wf(),
    {
        let ghost all = rows(saved@);
        let mut order: Vec<DownloadId> = Vec::new();
        let mut entries: HashMap<DownloadId, DownloadEntry> = HashMap::new();
        let mut runtime: HashMap<DownloadId, Runtime> = HashMap::new();
        let mut i: usize = 0;
        proof {
            assert(all.take(0) =~= Seq::<EntryView>::empty());
            assert(entries@.map_values(|e: DownloadEntry| e@) =~= restored_entries(all.take(0)));
            assert(runtime@.map_values(|r: Runtime| r@) =~= restored_runtime(all.take(0)));
        }
        while i < saved.len()
            invariant
                i <= saved.len(),
                all == rows(saved@),
                order@ == ids_of(all.take(i as int)),
                entries@.map_values(|e: DownloadEntry| e@) == restored_entries(all.take(i as int)),
                runtime@.map_values(|r: Runtime| r@) == restored_runtime(all.take(i as int)),
            decreases saved.len() - i,
        {
            let e: DownloadEntry = saved[i].copied();
            let id: DownloadId = e.id;
            let ghost before_entries = entries@;
            let ghost before_runtime = runtime@;
            proof {
                assert(all.take(i + 1).drop_last() =~= all.take(i as int));
                assert(all[i as int] == saved@[i as int]@);
                assert(ids_of(all.take(i + 1)) =~= ids_of(all.take(i as int)).push(id));
            }
            if !e.status.is_finished() {
                let rt = Runtime::new(headers::map_with_capacity(0), None);
                runtime.insert(id, rt);
                assert(runtime@.map_values(|r: Runtime| r@) =~= before_runtime.map_values(
                    |r: Runtime| r@,
                ).insert(id, rt@));
            }
            order.push(id);
            entries.insert(id, e);
            assert(entries@.map_values(|e: DownloadEntry| e@) =~= before_entries.map_values(
                |e: DownloadEntry| e@,
            ).insert(id, e@));
            i = i + 1;
        }
        let r = Manager {
            next_id,
            next_gen: 0,
            order,
            entries,
            runtime,
            max_active: if max_active < 1 { 1 } else { max_active },
        };
        proof {
            assert(all.take(i as int) =~= all);
            let m = r@;
            assert forall|x: u64| #[trigger] m.order.contains(x) <==> m.entries.dom().contains(x) by {
                lemma_restored(all, x);
            }
            assert forall|x: u64| #[trigger] m.runtime.dom().contains(x) implies m.entries.dom().contains(
                x,
            ) && m.runtime[x].generation <= m.next_gen by {
                lemma_restored(all, x);
            }
            assert forall|x: u64| #[trigger] m.entries.dom().contains(x) implies m.entries[x].id == x
                && x < m.next_id && (m.entries[x].status.active() ==> m.runtime.dom().contains(x)) by {
                lemma_restored(all, x);
                let k = choose|k: int|
                    0 <= k < all.len() && restored_entries(all)[x] == #[trigger] all[k];
                assert(saved@[k]@ == all[k]);
                assert(saved@[k].id < next_id);
            }
        }
        r
    }

    /// Clamped to between one and thirty-two.
    pub fn set_max_active(&mut self, max_active: usize)
        requires
            old(self)@.wf(),
        ensures
            final(self)@ == old(self)@.limited(max_active as int),
            final(self)@.wf(),
    {
        self.max_active = if max_active < 1 {
            1
        } else if max_active > 32 {
            32
        } else {
            max_active
        };
        assert(self@ =~= old(self)@.limited(max_active as int));
    }

    pub fn max_active(&self) -> (r: usize)
        ensures
            r == self@.max_active,
    {
        self.max_active
    }

    /// The next id to hand out, which is saved with the rows.
    pub fn next_id(&self) -> (r: DownloadId)
        ensures
            r == self@.next_id,
    {
        self.next_id
    }

    /// Every row, oldest first.
    pub fn list(&self) -> (r: Vec<DownloadEntry>)
        requires
            self@.wf(),
        ensures
            rows(r@) == self@.listed(),
    {
        let mut out: Vec<DownloadEntry> = Vec::new();
        let mut i: usize = 0;
        while i < self.order.len()
            invariant
                i <= self.order.len(),
                self@.wf(),
                out.len() == i,
                forall|k: int| 0 <= k < i ==> (#[trigger] out[k])@ == self@.listed()[k],
            decreases self.order.len() - i,
        {
            let id: DownloadId = self.order[i];
            proof {
                assert(self@.order[i as int] == id);
                assert(self@.order.contains(id));
            }
            if let Some(e) = self.entries.get(&id) {
                out.push(e.copied());
            }
            i = i + 1;
        }
        assert(rows(out@) =~= self@.listed());
        out
    }

    pub fn get(&self, id: DownloadId) -> (r: Option<DownloadEntry>)
        ensures
            match r {
                Some(e) => self@.entries.dom().contains(id) && e@ == self@.entries[id],
                None => !self@.entries.dom().contains(id),
            },
    {
        self.entry_of(id)
    }

    /// The control file of a row, if it is known. Whether it is there is for the
    /// caller to look up.
    pub fn control_of(&self, id: DownloadId) -> (r: Option<FilePath>)
        ensures
            opt_path(r) == self@.scratch(id).control,
    {
        self.scratch_of(id).control
    }
}

// ----------------------------------------------------------------- operations
/// A percent-encoding taken leniently: what is no byte in hexadecimal stands for
/// itself.
pub open spec fn lenient_bytes(b: Seq<u8>) -> Seq<u8>
    decreases b.len(),
{
    if b.len() == 0 {
        Seq::empty()
    } else if b[0] == 0x25 && b.len() > 2 && naming::hex_pair(b[1], b[2]) is Some {
        seq![naming::hex_pair(b[1], b[2])->0] + lenient_bytes(b.skip(3))
    } else {
        seq![b[0]] + lenient_bytes(b.skip(1))
    }
}

/// The last path segment, percent-decoded enough to be recognisable.
pub open spec fn placeholder_name(url: LinkView) -> Seq<char> {
    match url.last_segment() {
        Some(s) => if s.len() > 0 {
            text::lossy_utf8(lenient_bytes(vstd::utf8::encode_utf8(s)))
        } else {
            "download"@
        },
        None => "download"@,
    }
}

/// The bytes behind a percent-encoding, taken leniently.
pub fn decode_leniently(s: &str) -> (r: Vec<u8>)
    ensures
        r@ == lenient_bytes(vstd::utf8::encode_utf8(s@)),
{
    let bytes: &[u8] = s.as_bytes();
    let mut out: Vec<u8> = Vec::new();
    let mut i: usize = 0;
    assert(bytes@.skip(0) =~= bytes@);
    assert(out@ + lenient_bytes(bytes@) =~= lenient_bytes(bytes@));
    while i < bytes.len()
        invariant
            i <= bytes.len(),
            lenient_bytes(bytes@) == out@ + lenient_bytes(bytes@.skip(i as int)),
        decreases bytes.len() - i,
    {
        let ghost before = out@;
        let ghost here = bytes@.skip(i as int);
        let pair: Option<u8> = if bytes[i] == 0x25 && bytes.len() - i > 2 {
            naming::hex_pair_of(bytes[i + 1], bytes[i + 2])
        } else {
            None
        };
        match pair {
            Some(b) => {
                out.push(b);
                i = i + 3;
                proof {
                    assert(here.skip(3) =~= bytes@.skip(i as int));
                    assert(before + (seq![b] + lenient_bytes(here.skip(3))) =~= out@
                        + lenient_bytes(here.skip(3)));
                }
            },
            None => {
                out.push(bytes[i]);
                i = i + 1;
                proof {
                    assert(here.skip(1) =~= bytes@.skip(i as int));
                    assert(before + (seq![here[0]] + lenient_bytes(here.skip(1))) =~= out@
                        + lenient_bytes(here.skip(1)));
                }
            },
        }
    }
    assert(bytes@.skip(i as int) =~= Seq::<u8>::empty());
    assert(out@ + Seq::<u8>::empty() =~= out@);
    out
}

/// The name of a row until the engine has found the real one.
pub fn filename_from_url(url: &Link) -> (r: String)
    ensures
        r@ == placeholder_name(url@),
{
    match url.last_segment() {
        Some(s) => if s.is_empty() {
            "download".to_owned()
        } else {
            text::text_of_lossy(decode_leniently(s).as_slice())
        },
        None => "download".to_owned(),
    }
}

/// What adding a download to the list gives.
pub struct Added {
    pub id: DownloadId,
    /// The attempt to run.
    pub attempt: Attempt,
    pub event: Event,
}

impl ManagerView {
    /// The list after a download was added.
    pub open spec fn added(
        self,
        url: LinkView,
        headers: Map<Seq<char>, Seq<Seq<u8>>>,
        filename: Option<Seq<char>>,
        target_dir: Option<Seq<char>>,
        now: u64,
    ) -> ManagerView {
        let id = self.next_id;
        let name = match filename {
            Some(n) => n,
            None => placeholder_name(url),
        };
        ManagerView {
            next_id: (id + 1) as u64,
            next_gen: (self.next_gen + 1) as u64,
            order: self.order.push(id),
            entries: self.entries.insert(id, EntryView::fresh(id, url.text, name, now)),
            runtime: self.runtime.insert(
                id,
                RuntimeView::fresh(headers, target_dir).claimed((self.next_gen + 1) as u64),
            ),
            ..self
        }
    }

    /// The attempt to run once a download was added.
    pub open spec fn first_attempt(
        self,
        url: LinkView,
        filename: Option<Seq<char>>,
        target_dir: Option<Seq<char>>,
    ) -> AttemptView {
        AttemptView {
            id: self.next_id,
            generation: (self.next_gen + 1) as u64,
            url,
            filename,
            target_dir,
        }
    }
}

proof fn lemma_push_contains(s: Seq<u64>, id: u64, x: u64)
    ensures
        s.push(id).contains(x) <==> s.contains(x) || x == id,
{
    let t = s.push(id);
    if t.contains(x) {
        let i = choose|i: int| 0 <= i < t.len() && t[i] == x;
        if i < s.len() {
            assert(s[i] == x);
        }
    }
    if s.contains(x) {
        let i = choose|i: int| 0 <= i < s.len() && s[i] == x;
        assert(t[i] == x);
    }
    assert(t[s.len() as int] == id);
}

impl Manager {
    /// Queue a download. The row is there at once; the attempt is for the caller
    /// to run.
    pub fn add(&mut self, new: NewDownload, now: u64) -> (r: Added)
        requires
            old(self)@.wf(),
            old(self)@.next_id < u64::MAX,
            old(self)@.next_gen < u64::MAX,
        ensures
            final(self)@ == old(self)@.added(
                new.url@,
                headers::entries(new.headers),
                opt_text(new.filename),
                opt_text(new.target_dir),
                now,
            ),
            final(self)@.wf(),
            r.id == old(self)@.next_id,
            r.attempt@ == old(self)@.first_attempt(
                new.url@,
                opt_text(new.filename),
                opt_text(new.target_dir),
            ),
            r.event@ == EventView::Added(final(self)@.entries[r.id]),
    {
        let ghost before = self@;
        let filename: String = match &new.filename {
            Some(n) => n.clone(),
            None => filename_from_url(&new.url),
        };
        let id: DownloadId = self.next_id;
        self.next_id = id + 1;
        self.next_gen = self.next_gen + 1;
        let generation: u64 = self.next_gen;
        let entry = DownloadEntry::new(id, new.url.text.as_str(), filename, now);
        let event = Event::Added(entry.copied());
        let mut rt = Runtime::new(new.headers, copy_opt(&new.target_dir));
        rt.claim(generation);
        self.put_entry(id, entry);
        self.put_runtime(id, rt);
        self.order.push(id);
        proof {
            let after = self@;
            assert forall|x: u64| #[trigger] after.order.contains(x) <==> after.entries.dom().contains(
                x,
            ) by {
                lemma_push_contains(before.order, id, x);
                assert(before.order.contains(x) <==> before.entries.dom().contains(x));
            }
            assert forall|x: u64| #[trigger] after.runtime.dom().contains(x) implies after.entries.dom().contains(
                x,
            ) && after.runtime[x].generation <= after.next_gen by {
                assert(x != id ==> before.runtime.dom().contains(x));
            }
            assert forall|x: u64| #[trigger] after.entries.dom().contains(x) implies after.entries[x].id
                == x && x < after.next_id && (after.entries[x].status.active()
                ==> after.runtime.dom().contains(x)) by {
                assert(x != id ==> before.entries.dom().contains(x));
            }
        }
        let attempt = Attempt {
            id,
            generation,
            url: new.url,
            filename: new.filename,
            target_dir: new.target_dir,
        };
        Added { id, attempt, event }
    }
}

/// A row that is changed, and a runtime that is changed with it, keep the list
/// in order, as long as a running row has its runtime.
proof fn lemma_update_keeps_wf(before: ManagerView, after: ManagerView, id: u64)
    requires
        before.wf(),
        before.entries.dom().contains(id),
        after.entries.dom() =~= before.entries.dom(),
        after.entries[id].id == id,
        after.entries[id].status.active() ==> after.runtime.dom().contains(id),
        forall|x: u64| x != id ==> #[trigger] after.entries[x] == before.entries[x],
        forall|x: u64|
            x != id ==> (#[trigger] after.runtime.dom().contains(x)
                == before.runtime.dom().contains(x)),
        forall|x: u64| x != id ==> #[trigger] after.runtime[x] == before.runtime[x],
        after.runtime.dom().contains(id) ==> after.runtime[id].generation <= after.next_gen,
        after.order == before.order,
        after.next_id == before.next_id,
        before.next_gen <= after.next_gen,
        after.max_active == before.max_active,
    ensures
        after.wf(),
{
    assert forall|x: u64| #[trigger] after.order.contains(x) <==> after.entries.dom().contains(x) by {
        assert(before.order.contains(x) <==> before.entries.dom().contains(x));
    }
    assert forall|x: u64| #[trigger] after.runtime.dom().contains(x) implies after.entries.dom().contains(
        x,
    ) && after.runtime[x].generation <= after.next_gen by {
        if x != id {
            assert(before.runtime.dom().contains(x));
            assert(after.runtime[x] == before.runtime[x]);
        }
    }
    assert forall|x: u64| #[trigger] after.entries.dom().contains(x) implies after.entries[x].id == x
        && x < after.next_id && (after.entries[x].status.active()
        ==> after.runtime.dom().contains(x)) by {
        assert(before.entries.dom().contains(x));
        if x != id {
            assert(after.entries[x] == before.entries[x]);
            assert(after.runtime.dom().contains(x) == before.runtime.dom().contains(x));
        }
    }
}

impl ManagerView {
    /// Why pausing a row is refused, if it is.
    pub open spec fn pause_fault(self, id: u64) -> Option<ManagerErrorView> {
        if !self.entries.dom().contains(id) {
            Some(ManagerErrorView::NotFound(id))
        } else if !self.entries[id].status.active() {
            Some(
                ManagerErrorView::WrongState {
                    id,
                    status: self.entries[id].status,
                    action: "pause"@,
                },
            )
        } else {
            None
        }
    }

    /// The list after a running row was paused.
    pub open spec fn paused(self, id: u64, control_exists: bool) -> ManagerView {
        let stopped = if self.runtime.dom().contains(id) {
            self.with_runtime(id, self.runtime[id].stopped(Intent::Pause))
        } else {
            self
        };
        stopped.with_entry(
            id,
            EntryView {
                status: Status::Paused,
                resumable: self.resumable(id, control_exists),
                ..self.entries[id].idle()
            },
        )
    }

    /// Why resuming a row is refused, if it is. `parsed` is what its URL parses
    /// to.
    pub open spec fn resume_fault(
        self,
        id: u64,
        parsed: Result<LinkView, Seq<char>>,
    ) -> Option<ManagerErrorView> {
        if !self.entries.dom().contains(id) {
            Some(ManagerErrorView::NotFound(id))
        } else if self.entries[id].status.active() || self.entries[id].status
            == Status::Completed {
            Some(
                ManagerErrorView::WrongState {
                    id,
                    status: self.entries[id].status,
                    action: "resume"@,
                },
            )
        } else if parsed is Err {
            Some(ManagerErrorView::BadUrl { id, url: self.entries[id].url })
        } else {
            None
        }
    }

    /// The destination a previous attempt resolved, if it did: directory and
    /// name.
    pub open spec fn resolved(self, id: u64) -> Option<PathView> {
        match self.entries[id].path {
            Some(p) => if p.name.len() > 0 {
                Some(p)
            } else {
                None
            },
            None => None,
        }
    }

    /// Where a resumed row goes: where it already went, else where the caller
    /// wanted it.
    pub open spec fn resume_dir(self, id: u64) -> Option<Seq<char>> {
        match self.resolved(id) {
            Some(p) => Some(p.dir),
            None => if self.runtime.dom().contains(id) {
                self.runtime[id].target_dir
            } else {
                None
            },
        }
    }

    /// What a resumed row is called, if that was already settled.
    pub open spec fn resume_name(self, id: u64) -> Option<Seq<char>> {
        match self.resolved(id) {
            Some(p) => Some(p.name),
            None => None,
        }
    }

    /// The list after a row was handed to a new attempt.
    pub open spec fn resumed(self, id: u64) -> ManagerView {
        let generation = (self.next_gen + 1) as u64;
        let rt = if self.runtime.dom().contains(id) {
            RuntimeView { target_dir: self.resume_dir(id), ..self.runtime[id] }
        } else {
            RuntimeView::fresh(headers::no_entries(), self.resume_dir(id))
        };
        ManagerView { next_gen: generation, ..self }.with_entry(
            id,
            EntryView {
                status: Status::Queued,
                error: None,
                finished_at: None,
                ..self.entries[id].idle()
            },
        ).with_runtime(id, rt.claimed(generation))
    }

    /// The attempt to run once a row was resumed.
    pub open spec fn next_attempt(self, id: u64, url: LinkView) -> AttemptView {
        AttemptView {
            id,
            generation: (self.next_gen + 1) as u64,
            url,
            filename: self.resume_name(id),
            target_dir: self.resume_dir(id),
        }
    }

    /// Why cancelling or removing a row is refused, if it is.
    pub open spec fn absent_fault(self, id: u64) -> Option<ManagerErrorView> {
        if !self.entries.dom().contains(id) {
            Some(ManagerErrorView::NotFound(id))
        } else {
            None
        }
    }

    /// The list after a row was cancelled. A running one is asked to stop, and
    /// its partial data goes once it has.
    pub open spec fn cancelled(self, id: u64, now: u64) -> ManagerView {
        let stopped = if self.entries[id].status.active() {
            self.with_runtime(id, self.runtime[id].stopped(Intent::Cancel))
        } else {
            self
        };
        stopped.with_entry(
            id,
            EntryView {
                status: Status::Cancelled,
                error: None,
                resumable: false,
                finished_at: Some(now),
                ..self.entries[id].idle()
            },
        )
    }

    /// The scratch files that go at once when a row is cancelled. Those of a
    /// running one are still open.
    pub open spec fn discarded_by_cancel(self, id: u64) -> ScratchView {
        if self.entries[id].status.active() {
            ScratchView::none()
        } else {
            self.scratch(id)
        }
    }

    /// What has to be cleaned up at once when a row is removed.
    pub open spec fn cleaned_by_remove(self, id: u64, delete_file: bool) -> CleanupView {
        if self.entries[id].status.active() {
            CleanupView::nothing()
        } else {
            CleanupView {
                discard: self.scratch(id),
                delete: if delete_file && self.entries[id].status == Status::Completed {
                    self.entries[id].path
                } else {
                    None
                },
                event: Some(EventView::Removed(id)),
            }
        }
    }

    /// The list after a row was removed. A running one is only asked to stop:
    /// its row goes once it has.
    pub open spec fn removed(self, id: u64, delete_file: bool) -> ManagerView {
        if self.entries[id].status.active() {
            self.with_runtime(
                id,
                self.runtime[id].stopped(Intent::Remove { delete_file }),
            )
        } else {
            self.forgotten(id)
        }
    }
}

/// What resuming a download gives: the attempt to run, and the event.
pub struct Resumed {
    pub attempt: Attempt,
    pub event: Event,
}

/// What cancelling a download gives: the scratch files to delete now, and the
/// event.
pub struct Cancelled {
    pub discard: Scratch,
    pub event: Event,
}

/// What has to be done with files, and said, when a row goes or settles.
pub struct Cleanup {
    /// Scratch files to delete.
    pub discard: Scratch,
    /// The finished file to delete.
    pub delete: Option<FilePath>,
    /// The event to send. Where there is one, the list has to be saved.
    pub event: Option<Event>,
}

/// What cleaning up is, mathematically.
#[verifier::ext_equal]
pub struct CleanupView {
    pub discard: ScratchView,
    pub delete: Option<PathView>,
    pub event: Option<EventView>,
}

impl CleanupView {
    pub open spec fn nothing() -> CleanupView {
        CleanupView { discard: ScratchView::none(), delete: None, event: None }
    }

    /// Nothing on disk changes; the row did.
    pub open spec fn changed(e: EntryView) -> CleanupView {
        CleanupView {
            discard: ScratchView::none(),
            delete: None,
            event: Some(EventView::Changed(e)),
        }
    }
}

impl View for Cleanup {
    type V = CleanupView;

    open spec fn view(&self) -> CleanupView {
        CleanupView {
            discard: self.discard@,
            delete: opt_path(self.delete),
            event: match self.event {
                Some(e) => Some(e@),
                None => None,
            },
        }
    }
}

impl Cleanup {
    fn nothing() -> (r: Cleanup)
        ensures
            r@ == CleanupView::nothing(),
    {
        Cleanup { discard: Scratch::none(), delete: None, event: None }
    }

    fn changed(e: DownloadEntry) -> (r: Cleanup)
        ensures
            r@ == CleanupView::changed(e@),
    {
        Cleanup { discard: Scratch::none(), delete: None, event: Some(Event::Changed(e)) }
    }
}

impl Manager {
    /// Stop, keep the partial data, stay resumable. `control_exists` says whether
    /// the row's control file is there.
    ///
    /// The row says `Paused` at once, so a download still queued behind a busy
    /// slot reports what the user asked for.
    pub fn pause(&mut self, id: DownloadId, control_exists: bool) -> (r: Result<
        Event,
        ManagerError,
    >)
        requires
            old(self)@.wf(),
        ensures
            final(self)@.wf(),
            match old(self)@.pause_fault(id) {
                Some(f) => final(self)@ == old(self)@ && (r matches Err(e) && e@ == f),
                None => final(self)@ == old(self)@.paused(id, control_exists) && (r matches Ok(ev)
                    && ev@ == EventView::Changed(final(self)@.entries[id])),
            },
    {
        let ghost before = self@;
        let mut entry = match self.entry_of(id) {
            Some(e) => e,
            None => return Err(ManagerError::NotFound(id)),
        };
        if !entry.status.is_active() {
            return Err(ManagerError::WrongState { id, status: entry.status, action: "pause" });
        }
        let known = self.scratch_of(id).control.is_some();
        if let Some(mut rt) = self.take_runtime(id) {
            rt.stop(Intent::Pause);
            self.put_runtime(id, rt);
        }
        entry.set_idle();
        entry.status = Status::Paused;
        entry.resumable = known && control_exists;
        let event = Event::Changed(entry.copied());
        self.put_entry(id, entry);
        proof {
            assert(before.runtime.dom().contains(id));
            assert(self@ =~= before.paused(id, control_exists));
            lemma_update_keeps_wf(before, self@, id);
        }
        Ok(event)
    }

    /// `resume`, given what the row's URL parses to.
    pub fn resume_parsed(&mut self, id: DownloadId, parsed: Result<Link, String>) -> (r: Result<
        Resumed,
        ManagerError,
    >)
        requires
            old(self)@.wf(),
            old(self)@.next_gen < u64::MAX,
        ensures
            final(self)@.wf(),
            match old(self)@.resume_fault(id, link_result(parsed)) {
                Some(f) => final(self)@ == old(self)@ && (r matches Err(e) && e@ == f),
                None => {
                    &&& final(self)@ == old(self)@.resumed(id)
                    &&& r matches Ok(out) && out.event@ == EventView::Changed(
                        final(self)@.entries[id],
                    ) && out.attempt@ == old(self)@.next_attempt(id, parsed->Ok_0@)
                },
            },
    {
        let ghost before = self@;
        let mut entry = match self.entry_of(id) {
            Some(e) => e,
            None => return Err(ManagerError::NotFound(id)),
        };
        if entry.status.is_active() || entry.status == Status::Completed {
            return Err(ManagerError::WrongState { id, status: entry.status, action: "resume" });
        }
        let url = match parsed {
            Ok(u) => u,
            Err(_) => return Err(ManagerError::BadUrl { id, url: entry.url }),
        };
        let old_rt: Option<Runtime> = self.take_runtime(id);
        // A previous attempt already resolved the destination, so reuse it
        // verbatim. Without it only the URL is known and the engine decides
        // again.
        let mut filename: Option<String> = None;
        let mut target_dir: Option<String> = match &old_rt {
            Some(rt) => copy_opt(&rt.target_dir),
            None => None,
        };
        if let Some(p) = &entry.path {
            if !p.name.as_str().is_empty() {
                filename = Some(p.name.clone());
                target_dir = Some(p.dir.clone());
            }
        }
        entry.set_idle();
        entry.status = Status::Queued;
        entry.error = None;
        entry.finished_at = None;
        let event = Event::Changed(entry.copied());
        // Restored from disk: the row survived the restart but its headers did
        // not.
        let mut rt: Runtime = match old_rt {
            Some(mut rt) => {
                rt.target_dir = copy_opt(&target_dir);
                rt
            },
            None => Runtime::new(headers::map_with_capacity(0), copy_opt(&target_dir)),
        };
        self.next_gen = self.next_gen + 1;
        let generation: u64 = self.next_gen;
        rt.claim(generation);
        self.put_entry(id, entry);
        self.put_runtime(id, rt);
        proof {
            assert(self@ =~= before.resumed(id));
            lemma_update_keeps_wf(before, self@, id);
        }
        Ok(Resumed { attempt: Attempt { id, generation, url, filename, target_dir }, event })
    }

    /// Start again from wherever the `.part` file got to.
    ///
    /// A row that already resolved its destination keeps it, as an explicit
    /// target: the saved path already contains the category folder, so
    /// re-sorting it would nest one inside another.
    pub fn resume(&mut self, id: DownloadId) -> (r: Result<Resumed, ManagerError>)
        requires
            old(self)@.wf(),
            old(self)@.next_gen < u64::MAX,
        ensures
            final(self)@.wf(),
            ({
                let parsed = parsed_link(old(self)@.entries[id].url);
                match old(self)@.resume_fault(id, parsed) {
                    Some(f) => final(self)@ == old(self)@ && (r matches Err(e) && e@ == f),
                    None => {
                        &&& final(self)@ == old(self)@.resumed(id)
                        &&& r matches Ok(out) && out.event@ == EventView::Changed(
                            final(self)@.entries[id],
                        ) && out.attempt@ == old(self)@.next_attempt(id, parsed->Ok_0)
                    },
                }
            }),
    {
        let text: String = match self.entries.get(&id) {
            Some(e) => e.url.clone(),
            None => return Err(ManagerError::NotFound(id)),
        };
        let parsed = Link::parse(text.as_str());
        self.resume_parsed(id, parsed)
    }

    /// Stop and throw the partial data away. The row stays in the list so the
    /// user can see what happened and restart it.
    ///
    /// A running transfer still has the `.part` file open, so for it nothing is
    /// deleted yet: that follows once it has stopped.
    pub fn cancel(&mut self, id: DownloadId, now: u64) -> (r: Result<Cancelled, ManagerError>)
        requires
            old(self)@.wf(),
        ensures
            final(self)@.wf(),
            match old(self)@.absent_fault(id) {
                Some(f) => final(self)@ == old(self)@ && (r matches Err(e) && e@ == f),
                None => {
                    &&& final(self)@ == old(self)@.cancelled(id, now)
                    &&& r matches Ok(out) && out.event@ == EventView::Changed(
                        final(self)@.entries[id],
                    ) && out.discard@ == old(self)@.discarded_by_cancel(id)
                },
            },
    {
        let ghost before = self@;
        let mut entry = match self.entry_of(id) {
            Some(e) => e,
            None => return Err(ManagerError::NotFound(id)),
        };
        let mut discard = Scratch::none();
        if entry.status.is_active() {
            match self.take_runtime(id) {
                Some(mut rt) => {
                    rt.stop(Intent::Cancel);
                    self.put_runtime(id, rt);
                },
                None => return Err(ManagerError::NotFound(id)),
            }
        } else {
            discard = self.scratch_of(id);
        }
        entry.set_idle();
        entry.status = Status::Cancelled;
        entry.error = None;
        entry.resumable = false;
        entry.finished_at = Some(now);
        let event = Event::Changed(entry.copied());
        self.put_entry(id, entry);
        proof {
            assert(self@ =~= before.cancelled(id, now));
            lemma_update_keeps_wf(before, self@, id);
        }
        Ok(Cancelled { discard, event })
    }

    /// Take the row out of the list.
    ///
    /// `delete_file` also deletes the finished download. Partial data is always
    /// deleted. For a running download the row disappears only once it has
    /// stopped.
    pub fn remove(&mut self, id: DownloadId, delete_file: bool) -> (r: Result<
        Cleanup,
        ManagerError,
    >)
        requires
            old(self)@.wf(),
        ensures
            final(self)@.wf(),
            match old(self)@.absent_fault(id) {
                Some(f) => final(self)@ == old(self)@ && (r matches Err(e) && e@ == f),
                None => {
                    &&& final(self)@ == old(self)@.removed(id, delete_file)
                    &&& r matches Ok(out) && out@ == old(self)@.cleaned_by_remove(id, delete_file)
                },
            },
    {
        let ghost before = self@;
        let entry = match self.entry_of(id) {
            Some(e) => e,
            None => return Err(ManagerError::NotFound(id)),
        };
        if entry.status.is_active() {
            match self.take_runtime(id) {
                Some(mut rt) => {
                    rt.stop(Intent::Remove { delete_file });
                    self.put_runtime(id, rt);
                },
                None => return Err(ManagerError::NotFound(id)),
            }
            proof {
                assert(self@ =~= before.removed(id, delete_file));
                lemma_update_keeps_wf(before, self@, id);
            }
            return Ok(Cleanup::nothing());
        }
        let discard = self.scratch_of(id);
        let delete: Option<FilePath> = if delete_file && entry.status == Status::Completed {
            entry.path
        } else {
            None
        };
        self.forget(id);
        proof {
            lemma_forget_keeps_wf(before, id);
        }
        Ok(Cleanup { discard, delete, event: Some(Event::Removed(id)) })
    }
}

// ---------------------------------------------------------------- the attempt
/// What an attempt finds when its turn comes.
pub enum Begin {
    /// Another attempt owns the download, or the row is gone.
    Gone,
    /// The download was stopped while it was queued. Starting now would
    /// contradict the UI.
    Stopped(Cleanup),
    Run(DownloadRequest),
}

/// What a request to the engine is, mathematically.
#[verifier::ext_equal]
pub struct RequestView {
    pub url: LinkView,
    pub headers: Map<Seq<char>, Seq<Seq<u8>>>,
    pub filename: Option<Seq<char>>,
    pub target_dir: Option<Seq<char>>,
}

/// What an attempt finds, mathematically.
#[verifier::ext_equal]
pub enum BeginView {
    Gone,
    Stopped(CleanupView),
    Run(RequestView),
}

impl View for Begin {
    type V = BeginView;

    open spec fn view(&self) -> BeginView {
        match self {
            Begin::Gone => BeginView::Gone,
            Begin::Stopped(c) => BeginView::Stopped(c@),
            Begin::Run(r) => BeginView::Run(
                RequestView {
                    url: r.url@,
                    headers: headers::entries(r.headers),
                    filename: opt_text(r.filename),
                    target_dir: opt_text(r.target_dir),
                },
            ),
        }
    }
}

/// What an attempt came to.
pub enum Terminal {
    Done(DownloadOutcome),
    Stopped,
    Failed(Error),
}

/// What the engine's result comes to for the list.
pub open spec fn terminal(r: Result<DownloadOutcome, Error>) -> Terminal {
    match r {
        Ok(o) => Terminal::Done(o),
        Err(e) => if e@ is Cancelled {
            Terminal::Stopped
        } else {
            Terminal::Failed(e)
        },
    }
}

impl Terminal {
    /// Reduce the engine's result to the cases the list cares about.
    pub fn of(r: Result<DownloadOutcome, Error>) -> (t: Terminal)
        ensures
            t == terminal(r),
    {
        match r {
            Ok(o) => Terminal::Done(o),
            Err(Error::Cancelled) => Terminal::Stopped,
            Err(e) => Terminal::Failed(e),
        }
    }
}

impl ManagerView {
    /// What has to be cleaned up when a row goes because its download was to be
    /// removed.
    pub open spec fn removal(self, id: u64, delete_file: bool) -> CleanupView {
        CleanupView {
            discard: self.scratch(id),
            delete: if delete_file {
                self.entries[id].path
            } else {
                None
            },
            event: Some(EventView::Removed(id)),
        }
    }

    /// The list when an attempt's turn comes, and what the attempt finds.
    pub open spec fn begun(self, attempt: AttemptView) -> (ManagerView, BeginView) {
        let id = attempt.id;
        if !self.is_current(id, attempt.generation) {
            (self, BeginView::Gone)
        } else if self.entries[id].status.active() {
            (
                self,
                BeginView::Run(
                    RequestView {
                        url: attempt.url,
                        headers: self.runtime[id].headers,
                        filename: attempt.filename,
                        target_dir: attempt.target_dir,
                    },
                ),
            )
        } else {
            match self.runtime[id].intent {
                Some(Intent::Remove { delete_file }) => (
                    self.forgotten(id),
                    BeginView::Stopped(self.removal(id, delete_file)),
                ),
                _ => (self, BeginView::Stopped(CleanupView::nothing())),
            }
        }
    }

    /// The list after the engine has resolved a destination.
    pub open spec fn started(self, id: u64, generation: u64, info: StartInfo) -> ManagerView {
        if !self.is_current(id, generation) {
            self
        } else {
            let known = self.with_runtime(
                id,
                RuntimeView {
                    part: Some(info.part@),
                    control: Some(info.control@),
                    ..self.runtime[id]
                },
            );
            if self.entries[id].status.active() {
                known.with_entry(
                    id,
                    EntryView {
                        status: Status::Downloading,
                        path: Some(info.target@),
                        filename: if info.target@.name.len() > 0 {
                            info.target@.name
                        } else {
                            self.entries[id].filename
                        },
                        total: info.total,
                        category: Some(info.category),
                        resumable: info.used_ranges,
                        ..self.entries[id]
                    },
                )
            } else {
                known
            }
        }
    }

    /// Whether an attempt may write to its row: it owns it, and the row is
    /// running.
    pub open spec fn may_write(self, id: u64, generation: u64) -> bool {
        self.is_current(id, generation) && self.entries[id].status.active()
    }

    /// The list after progress was made.
    pub open spec fn progressed(self, id: u64, generation: u64, p: ProgressSnapshot) -> ManagerView {
        if self.may_write(id, generation) {
            self.with_entry(
                id,
                EntryView {
                    downloaded: p.downloaded,
                    total: p.total,
                    speed_bits: p.speed_bits,
                    eta_secs: p.eta_secs,
                    segments: p.segments,
                    active_connections: p.active_connections,
                    ..self.entries[id]
                },
            )
        } else {
            self
        }
    }

    /// A row once its attempt has ended, where it does not go altogether.
    pub open spec fn ended(
        self,
        id: u64,
        outcome: Terminal,
        control_exists: bool,
        now: u64,
    ) -> EntryView {
        let e = self.entries[id].idle();
        match outcome {
            Terminal::Done(o) => EntryView {
                status: Status::Completed,
                path: Some(o.path@),
                filename: if o.path@.name.len() > 0 {
                    o.path@.name
                } else {
                    e.filename
                },
                downloaded: o.bytes,
                total: Some(o.bytes),
                category: Some(o.category),
                segments: o.segments_used,
                error: None,
                resumable: false,
                finished_at: Some(now),
                ..e
            },
            Terminal::Stopped => if self.runtime[id].intent == Some(Intent::Cancel) {
                EntryView { status: Status::Cancelled, error: None, resumable: false, ..e }
            } else {
                // Paused, either explicitly or because the token was tripped
                // without an intent. Both keep the partial data.
                EntryView {
                    status: Status::Paused,
                    error: None,
                    resumable: self.resumable(id, control_exists),
                    ..e
                }
            },
            Terminal::Failed(err) => EntryView {
                status: Status::Failed,
                error: Some(err@.message()),
                resumable: self.resumable(id, control_exists),
                finished_at: Some(now),
                ..e
            },
        }
    }

    /// The list after an attempt has ended, and what has to be cleaned up. An
    /// attempt that no longer owns the download changes nothing; a removal wins
    /// over everything else.
    pub open spec fn finalised(
        self,
        id: u64,
        generation: u64,
        outcome: Terminal,
        control_exists: bool,
        now: u64,
    ) -> (ManagerView, CleanupView) {
        if !self.is_current(id, generation) {
            (self, CleanupView::nothing())
        } else {
            match self.runtime[id].intent {
                Some(Intent::Remove { delete_file }) => (
                    self.forgotten(id),
                    self.removal(id, delete_file),
                ),
                _ => {
                    let e = self.ended(id, outcome, control_exists, now);
                    (
                        self.with_entry(id, e),
                        CleanupView {
                            discard: if outcome is Stopped && self.runtime[id].intent == Some(
                                Intent::Cancel,
                            ) {
                                self.scratch(id)
                            } else {
                                ScratchView::none()
                            },
                            ..CleanupView::changed(e)
                        },
                    )
                },
            }
        }
    }
}

impl Manager {
    /// An attempt's turn has come.
    pub fn begin(&mut self, attempt: &Attempt) -> (r: Begin)
        requires
            old(self)@.wf(),
        ensures
            final(self)@.wf(),
            (final(self)@, r@) == old(self)@.begun(attempt@),
    {
        let ghost before = self@;
        let id: DownloadId = attempt.id;
        if !self.is_current(id, attempt.generation) {
            return Begin::Gone;
        }
        let entry = match self.entry_of(id) {
            Some(e) => e,
            None => return Begin::Gone,
        };
        if !entry.status.is_active() {
            return match self.intent_of(id) {
                Some(Intent::Remove { delete_file }) => {
                    let discard = self.scratch_of(id);
                    let delete: Option<FilePath> = if delete_file {
                        entry.path
                    } else {
                        None
                    };
                    self.forget(id);
                    proof {
                        lemma_forget_keeps_wf(before, id);
                    }
                    Begin::Stopped(
                        Cleanup { discard, delete, event: Some(Event::Removed(id)) },
                    )
                },
                _ => Begin::Stopped(Cleanup::nothing()),
            };
        }
        match self.runtime.get(&id) {
            Some(rt) => Begin::Run(
                DownloadRequest {
                    url: attempt.url.copied(),
                    headers: headers::map_clone(&rt.headers),
                    filename: copy_opt(&attempt.filename),
                    target_dir: copy_opt(&attempt.target_dir),
                },
            ),
            None => Begin::Gone,
        }
    }

    /// The engine has resolved the destination. The scratch paths are recorded
    /// even for a row that was stopped meanwhile, so that what is on disk can
    /// still be cleaned up. Returns the event to send, with which the list has to
    /// be saved.
    pub fn on_start(&mut self, id: DownloadId, generation: u64, info: &StartInfo) -> (r: Option<
        Event,
    >)
        requires
            old(self)@.wf(),
        ensures
            final(self)@.wf(),
            final(self)@ == old(self)@.started(id, generation, *info),
            match r {
                Some(ev) => old(self)@.may_write(id, generation) && ev@ == EventView::Changed(
                    final(self)@.entries[id],
                ),
                None => !old(self)@.may_write(id, generation),
            },
    {
        let ghost before = self@;
        if !self.is_current(id, generation) {
            return None;
        }
        if let Some(mut rt) = self.take_runtime(id) {
            rt.part = Some(info.part.copied());
            rt.control = Some(info.control.copied());
            self.put_runtime(id, rt);
        }
        let mut entry = match self.entry_of(id) {
            Some(e) => e,
            None => return None,
        };
        if !entry.status.is_active() {
            proof {
                assert(self@ =~= before.started(id, generation, *info));
                lemma_update_keeps_wf(before, self@, id);
            }
            return None;
        }
        entry.status = Status::Downloading;
        entry.path = Some(info.target.copied());
        if !info.target.name.as_str().is_empty() {
            entry.filename = info.target.name.clone();
        }
        entry.total = info.total;
        entry.category = Some(info.category);
        entry.resumable = info.used_ranges;
        let event = Event::Changed(entry.copied());
        self.put_entry(id, entry);
        proof {
            assert(self@ =~= before.started(id, generation, *info));
            lemma_update_keeps_wf(before, self@, id);
        }
        Some(event)
    }

    /// Progress was made. Returns the event to send; progress is not saved.
    pub fn on_progress(&mut self, id: DownloadId, generation: u64, p: &ProgressSnapshot) -> (r:
        Option<Event>)
        requires
            old(self)@.wf(),
        ensures
            final(self)@.wf(),
            final(self)@ == old(self)@.progressed(id, generation, *p),
            match r {
                Some(ev) => old(self)@.may_write(id, generation) && ev@ == EventView::Changed(
                    final(self)@.entries[id],
                ),
                None => !old(self)@.may_write(id, generation),
            },
    {
        let ghost before = self@;
        if !self.is_current(id, generation) {
            return None;
        }
        let mut entry = match self.entry_of(id) {
            Some(e) => e,
            None => return None,
        };
        if !entry.status.is_active() {
            return None;
        }
        entry.downloaded = p.downloaded;
        entry.total = p.total;
        entry.speed_bits = p.speed_bits;
        entry.eta_secs = p.eta_secs;
        entry.segments = p.segments;
        entry.active_connections = p.active_connections;
        let event = Event::Changed(entry.copied());
        self.put_entry(id, entry);
        proof {
            lemma_update_keeps_wf(before, self@, id);
        }
        Some(event)
    }

    /// The one place a download's terminal status is written. `control_exists`
    /// says whether the row's control file is there: resumability is a fact about
    /// the disk, not about the error.
    pub fn finalise(
        &mut self,
        id: DownloadId,
        generation: u64,
        outcome: Terminal,
        control_exists: bool,
        now: u64,
    ) -> (r: Cleanup)
        requires
            old(self)@.wf(),
        ensures
            final(self)@.wf(),
            (final(self)@, r@) == old(self)@.finalised(
                id,
                generation,
                outcome,
                control_exists,
                now,
            ),
    {
        let ghost before = self@;
        let mut entry = match self.entry_of(id) {
            Some(e) => e,
            None => return Cleanup::nothing(),
        };
        if !self.is_current(id, generation) {
            // A ghost: the user resumed while this attempt was still stopping,
            // and a newer one owns the row. So write nothing.
            return Cleanup::nothing();
        }
        let intent: Option<Intent> = self.intent_of(id);
        let scratch = self.scratch_of(id);
        if let Some(Intent::Remove { delete_file }) = intent {
            let delete: Option<FilePath> = if delete_file {
                entry.path
            } else {
                None
            };
            self.forget(id);
            proof {
                lemma_forget_keeps_wf(before, id);
            }
            return Cleanup { discard: scratch, delete, event: Some(Event::Removed(id)) };
        }
        let resumable = scratch.control.is_some() && control_exists;
        let cancelling = match intent {
            Some(Intent::Cancel) => true,
            _ => false,
        };
        let mut discard = Scratch::none();
        entry.set_idle();
        match outcome {
            Terminal::Done(o) => {
                entry.status = Status::Completed;
                if !o.path.name.as_str().is_empty() {
                    entry.filename = o.path.name.clone();
                }
                entry.path = Some(o.path);
                entry.downloaded = o.bytes;
                entry.total = Some(o.bytes);
                entry.category = Some(o.category);
                entry.segments = o.segments_used;
                entry.error = None;
                entry.resumable = false;
                entry.finished_at = Some(now);
            },
            Terminal::Stopped => {
                entry.error = None;
                if cancelling {
                    discard = scratch;
                    entry.status = Status::Cancelled;
                    entry.resumable = false;
                } else {
                    entry.status = Status::Paused;
                    entry.resumable = resumable;
                }
            },
            Terminal::Failed(e) => {
                entry.status = Status::Failed;
                entry.error = Some(e.message());
                entry.resumable = resumable;
                entry.finished_at = Some(now);
            },
        }
        let mut cleanup = Cleanup::changed(entry.copied());
        cleanup.discard = discard;
        self.put_entry(id, entry);
        proof {
            assert(self@.entries[id] =~= before.ended(id, outcome, control_exists, now));
            lemma_update_keeps_wf(before, self@, id);
        }
        cleanup
    }
}

// --------------------------------------------------------------- media tools
/// What a media tool reports of its progress.
#[derive(Debug, Clone, Copy, PartialEq, Eq, Structural)]
pub struct MediaProgress {
    pub downloaded: u64,
    /// `None` leaves the row's total as it is.
    pub total: Option<u64>,
    pub speed_bits: u64,
    pub eta_secs: Option<u64>,
    pub connections: u32,
}

impl ManagerView {
    /// The list after a media tool was started on a download.
    pub open spec fn media_started(self, id: u64, generation: u64, category: Category) -> ManagerView {
        if self.is_current(id, generation) {
            self.with_entry(
                id,
                EntryView {
                    status: Status::Downloading,
                    error: None,
                    category: Some(category),
                    ..self.entries[id]
                },
            )
        } else {
            self
        }
    }

    /// The list after a media tool has made progress.
    pub open spec fn media_progressed(self, id: u64, generation: u64, p: MediaProgress) -> ManagerView {
        if self.is_current(id, generation) {
            self.with_entry(
                id,
                EntryView {
                    downloaded: p.downloaded,
                    total: if p.total is Some {
                        p.total
                    } else {
                        self.entries[id].total
                    },
                    speed_bits: p.speed_bits,
                    eta_secs: p.eta_secs,
                    active_connections: p.connections,
                    ..self.entries[id]
                },
            )
        } else {
            self
        }
    }

    /// The list after a media tool has left a file.
    pub open spec fn media_found(
        self,
        id: u64,
        generation: u64,
        path: PathView,
        size: u64,
    ) -> ManagerView {
        if self.is_current(id, generation) {
            self.with_entry(
                id,
                EntryView {
                    path: Some(path),
                    downloaded: size,
                    total: Some(size),
                    filename: if path.name.len() > 0 {
                        path.name
                    } else {
                        self.entries[id].filename
                    },
                    ..self.entries[id]
                },
            )
        } else {
            self
        }
    }
}

impl Manager {
    /// A media tool was started on a download.
    pub fn on_media_start(&mut self, id: DownloadId, generation: u64, category: Category) -> (r:
        Option<Event>)
        requires
            old(self)@.wf(),
        ensures
            final(self)@.wf(),
            final(self)@ == old(self)@.media_started(id, generation, category),
            match r {
                Some(ev) => old(self)@.is_current(id, generation) && ev@ == EventView::Changed(
                    final(self)@.entries[id],
                ),
                None => !old(self)@.is_current(id, generation),
            },
    {
        let ghost before = self@;
        if !self.is_current(id, generation) {
            return None;
        }
        let mut entry = match self.entry_of(id) {
            Some(e) => e,
            None => return None,
        };
        entry.status = Status::Downloading;
        entry.error = None;
        entry.category = Some(category);
        let event = Event::Changed(entry.copied());
        self.put_entry(id, entry);
        proof {
            lemma_update_keeps_wf(before, self@, id);
        }
        Some(event)
    }

    /// A media tool has made progress.
    pub fn on_media_progress(&mut self, id: DownloadId, generation: u64, p: &MediaProgress) -> (r:
        Option<Event>)
        requires
            old(self)@.wf(),
        ensures
            final(self)@.wf(),
            final(self)@ == old(self)@.media_progressed(id, generation, *p),
            match r {
                Some(ev) => old(self)@.is_current(id, generation) && ev@ == EventView::Changed(
                    final(self)@.entries[id],
                ),
                None => !old(self)@.is_current(id, generation),
            },
    {
        let ghost before = self@;
        if !self.is_current(id, generation) {
            return None;
        }
        let mut entry = match self.entry_of(id) {
            Some(e) => e,
            None => return None,
        };
        entry.downloaded = p.downloaded;
        if p.total.is_some() {
            entry.total = p.total;
        }
        entry.speed_bits = p.speed_bits;
        entry.eta_secs = p.eta_secs;
        entry.active_connections = p.connections;
        let event = Event::Changed(entry.copied());
        self.put_entry(id, entry);
        proof {
            lemma_update_keeps_wf(before, self@, id);
        }
        Some(event)
    }

    /// A media tool has left a file.
    pub fn on_media_file(&mut self, id: DownloadId, generation: u64, path: &FilePath, size: u64)
        requires
            old(self)@.wf(),
        ensures
            final(self)@.wf(),
            final(self)@ == old(self)@.media_found(id, generation, path@, size),
    {
        let ghost before = self@;
        if !self.is_current(id, generation) {
            return;
        }
        let mut entry = match self.entry_of(id) {
            Some(e) => e,
            None => return,
        };
        entry.path = Some(path.copied());
        entry.downloaded = size;
        entry.total = Some(size);
        if !path.name.as_str().is_empty() {
            entry.filename = path.name.clone();
        }
        self.put_entry(id, entry);
        proof {
            lemma_update_keeps_wf(before, self@, id);
        }
    }
}

// --------------------------------------------------------------------- in bulk
/// Which rows a bulk operation is about.
#[derive(Clone, Copy, PartialEq, Eq, Structural)]
enum Pick {
    Active,
    /// Paused or failed.
    Restartable,
    Finished,
}

/// The ids of the running rows, in order.
pub open spec fn active_ids(v: Seq<EntryView>) -> Seq<u64>
    decreases v.len(),
{
    if v.len() == 0 {
        Seq::empty()
    } else if v.last().status.active() {
        active_ids(v.drop_last()).push(v.last().id)
    } else {
        active_ids(v.drop_last())
    }
}

/// The ids of the paused and failed rows, in order.
pub open spec fn restartable_ids(v: Seq<EntryView>) -> Seq<u64>
    decreases v.len(),
{
    if v.len() == 0 {
        Seq::empty()
    } else if v.last().status == Status::Paused || v.last().status == Status::Failed {
        restartable_ids(v.drop_last()).push(v.last().id)
    } else {
        restartable_ids(v.drop_last())
    }
}

/// The ids of the finished rows, in order.
pub open spec fn finished_ids(v: Seq<EntryView>) -> Seq<u64>
    decreases v.len(),
{
    if v.len() == 0 {
        Seq::empty()
    } else if v.last().status.finished() {
        finished_ids(v.drop_last()).push(v.last().id)
    } else {
        finished_ids(v.drop_last())
    }
}

spec fn picked_ids(v: Seq<EntryView>, pick: Pick) -> Seq<u64> {
    match pick {
        Pick::Active => active_ids(v),
        Pick::Restartable => restartable_ids(v),
        Pick::Finished => finished_ids(v),
    }
}

impl ManagerView {
    /// The list, and the events, after pausing these rows one by one. `on_disk`
    /// lists the rows whose control file is there.
    pub open spec fn pausing(self, ids: Seq<u64>, on_disk: Seq<u64>) -> (ManagerView, Seq<EventView>)
        decreases ids.len(),
    {
        if ids.len() == 0 {
            (self, Seq::empty())
        } else {
            let (m, events) = self.pausing(ids.drop_last(), on_disk);
            let id = ids.last();
            if m.pause_fault(id) is None {
                let after = m.paused(id, on_disk.contains(id));
                (after, events.push(EventView::Changed(after.entries[id])))
            } else {
                (m, events)
            }
        }
    }

    /// The list, and the attempts to run, after resuming these rows one by one.
    pub open spec fn resuming(self, ids: Seq<u64>) -> (ManagerView, Seq<(AttemptView, EventView)>)
        decreases ids.len(),
    {
        if ids.len() == 0 {
            (self, Seq::empty())
        } else {
            let (m, out) = self.resuming(ids.drop_last());
            let id = ids.last();
            let parsed = parsed_link(m.entries[id].url);
            if m.resume_fault(id, parsed) is None {
                let after = m.resumed(id);
                (
                    after,
                    out.push(
                        (
                            m.next_attempt(id, parsed->Ok_0),
                            EventView::Changed(after.entries[id]),
                        ),
                    ),
                )
            } else {
                (m, out)
            }
        }
    }

    /// The list, and what has to be cleaned up, after removing these rows one by
    /// one, keeping their files.
    pub open spec fn clearing(self, ids: Seq<u64>) -> (ManagerView, Seq<CleanupView>)
        decreases ids.len(),
    {
        if ids.len() == 0 {
            (self, Seq::empty())
        } else {
            let (m, out) = self.clearing(ids.drop_last());
            let id = ids.last();
            if m.absent_fault(id) is None {
                (
                    m.removed(id, false),
                    out.push(m.cleaned_by_remove(id, false)),
                )
            } else {
                (m, out)
            }
        }
    }
}

/// What a list of events is.
pub open spec fn events_view(v: Seq<Event>) -> Seq<EventView> {
    v.map_values(|e: Event| e@)
}

/// What a list of resumed rows is.
pub open spec fn resumed_view(v: Seq<Resumed>) -> Seq<(AttemptView, EventView)> {
    v.map_values(|r: Resumed| (r.attempt@, r.event@))
}

/// What a list of clean-ups is.
pub open spec fn cleanups_view(v: Seq<Cleanup>) -> Seq<CleanupView> {
    v.map_values(|c: Cleanup| c@)
}

/// Whether a list of ids holds one of them.
pub fn has_id(ids: &Vec<DownloadId>, id: DownloadId) -> (r: bool)
    ensures
        r == ids@.contains(id),
{
    let mut i: usize = 0;
    while i < ids.len()
        invariant
            i <= ids.len(),
            forall|k: int| 0 <= k < i ==> ids@[k] != id,
        decreases ids.len() - i,
    {
        if ids[i] == id {
            return true;
        }
        i = i + 1;
    }
    false
}

impl Manager {
    fn pick(&self, pick: Pick) -> (r: Vec<DownloadId>)
        requires
            self@.wf(),
        ensures
            r@ == picked_ids(self@.listed(), pick),
    {
        let list = self.list();
        let ghost all = self@.listed();
        let mut out: Vec<DownloadId> = Vec::new();
        let mut i: usize = 0;
        assert(all.take(0) =~= Seq::<EntryView>::empty());
        while i < list.len()
            invariant
                i <= list.len(),
                rows(list@) == all,
                out@ == picked_ids(all.take(i as int), pick),
            decreases list.len() - i,
        {
            let status: Status = list[i].status;
            proof {
                assert(all[i as int] == list@[i as int]@);
                assert(all.take(i + 1).drop_last() =~= all.take(i as int));
            }
            let wanted = match pick {
                Pick::Active => status.is_active(),
                Pick::Restartable => status == Status::Paused || status == Status::Failed,
                Pick::Finished => status.is_finished(),
            };
            if wanted {
                out.push(list[i].id);
            }
            i = i + 1;
        }
        assert(all.take(i as int) =~= all);
        out
    }

    /// Pause everything that is running or waiting. One event for each row that
    /// was affected. `on_disk` lists the rows whose control file is there.
    pub fn pause_all(&mut self, on_disk: &Vec<DownloadId>) -> (r: Vec<Event>)
        requires
            old(self)@.wf(),
        ensures
            final(self)@.wf(),
            (final(self)@, events_view(r@)) == old(self)@.pausing(
                active_ids(old(self)@.listed()),
                on_disk@,
            ),
    {
        let ghost start = self@;
        let ids: Vec<DownloadId> = self.pick(Pick::Active);
        let mut events: Vec<Event> = Vec::new();
        let mut i: usize = 0;
        proof {
            assert(ids@.take(0) =~= Seq::<u64>::empty());
            assert(events_view(events@) =~= Seq::<EventView>::empty());
        }
        while i < ids.len()
            invariant
                i <= ids.len(),
                self@.wf(),
                (self@, events_view(events@)) == start.pausing(ids@.take(i as int), on_disk@),
            decreases ids.len() - i,
        {
            let id: DownloadId = ids[i];
            let ghost so_far = events_view(events@);
            proof {
                assert(ids@.take(i + 1).drop_last() =~= ids@.take(i as int));
            }
            if let Ok(ev) = self.pause(id, has_id(on_disk, id)) {
                events.push(ev);
                assert(events_view(events@) =~= so_far.push(ev@));
            }
            i = i + 1;
        }
        assert(ids@.take(i as int) =~= ids@);
        events
    }

    /// Resume everything that is paused or failed. One attempt for each row that
    /// was affected.
    pub fn resume_all(&mut self) -> (r: Vec<Resumed>)
        requires
            old(self)@.wf(),
            old(self)@.next_gen + old(self)@.order.len() <= u64::MAX,
        ensures
            final(self)@.wf(),
            (final(self)@, resumed_view(r@)) == old(self)@.resuming(
                restartable_ids(old(self)@.listed()),
            ),
    {
        let ghost start = self@;
        let ids: Vec<DownloadId> = self.pick(Pick::Restartable);
        let mut out: Vec<Resumed> = Vec::new();
        let mut i: usize = 0;
        proof {
            assert(ids@.take(0) =~= Seq::<u64>::empty());
            assert(resumed_view(out@) =~= Seq::<(AttemptView, EventView)>::empty());
            lemma_restartable_len(start.listed());
        }
        while i < ids.len()
            invariant
                i <= ids.len() <= start.order.len(),
                start.next_gen + start.order.len() <= u64::MAX,
                self@.next_gen <= start.next_gen + i,
                self@.wf(),
                (self@, resumed_view(out@)) == start.resuming(ids@.take(i as int)),
            decreases ids.len() - i,
        {
            let id: DownloadId = ids[i];
            let ghost so_far = resumed_view(out@);
            proof {
                assert(ids@.take(i + 1).drop_last() =~= ids@.take(i as int));
            }
            if let Ok(r) = self.resume(id) {
                out.push(r);
                assert(resumed_view(out@) =~= so_far.push((r.attempt@, r.event@)));
            }
            i = i + 1;
        }
        assert(ids@.take(i as int) =~= ids@);
        out
    }

    /// Drop every completed, failed and cancelled row. The files themselves are
    /// left alone: this clears the list, it does not delete downloads.
    pub fn clear_finished(&mut self) -> (r: Vec<Cleanup>)
        requires
            old(self)@.wf(),
        ensures
            final(self)@.wf(),
            (final(self)@, cleanups_view(r@)) == old(self)@.clearing(
                finished_ids(old(self)@.listed()),
            ),
    {
        let ghost start = self@;
        let ids: Vec<DownloadId> = self.pick(Pick::Finished);
        let mut out: Vec<Cleanup> = Vec::new();
        let mut i: usize = 0;
        proof {
            assert(ids@.take(0) =~= Seq::<u64>::empty());
            assert(cleanups_view(out@) =~= Seq::<CleanupView>::empty());
        }
        while i < ids.len()
            invariant
                i <= ids.len(),
                self@.wf(),
                (self@, cleanups_view(out@)) == start.clearing(ids@.take(i as int)),
            decreases ids.len() - i,
        {
            let id: DownloadId = ids[i];
            let ghost so_far = cleanups_view(out@);
            proof {
                assert(ids@.take(i + 1).drop_last() =~= ids@.take(i as int));
            }
            if let Ok(c) = self.remove(id, false) {
                out.push(c);
                assert(cleanups_view(out@) =~= so_far.push(c@));
            }
            i = i + 1;
        }
        assert(ids@.take(i as int) =~= ids@);
        out
    }
}

proof fn lemma_restartable_len(v: Seq<EntryView>)
    ensures
        restartable_ids(v).len() <= v.len(),
    decreases v.len(),
{
    if v.len() > 0 {
        lemma_restartable_len(v.drop_last());
    }
}

// ------------------------------------------------------------------------ laws
/// Only the current attempt may write: whatever a superseded one reports, the
/// list, and the disk, stay as they are.
pub proof fn law_a_superseded_attempt_changes_nothing(
    m: ManagerView,
    id: u64,
    generation: u64,
    info: StartInfo,
    p: ProgressSnapshot,
    mp: MediaProgress,
    category: Category,
    path: PathView,
    size: u64,
    outcome: Terminal,
    control_exists: bool,
    now: u64,
)
    requires
        !m.is_current(id, generation),
    ensures
        m.started(id, generation, info) == m,
        m.progressed(id, generation, p) == m,
        m.media_started(id, generation, category) == m,
        m.media_progressed(id, generation, mp) == m,
        m.media_found(id, generation, path, size) == m,
        m.finalised(id, generation, outcome, control_exists, now) == (
            m,
            CleanupView::nothing(),
        ),
{
}

/// Resuming hands the download to an attempt of a generation never used before:
/// no earlier attempt is current any more, and the new one is not told to stop.
pub proof fn law_resume_supersedes_every_earlier_attempt(m: ManagerView, id: u64, generation: u64)
    requires
        m.wf(),
        m.entries.dom().contains(id),
        m.next_gen < u64::MAX,
        generation <= m.next_gen,
    ensures
        !m.resumed(id).is_current(id, generation),
        m.resumed(id).is_current(id, (m.next_gen + 1) as u64),
        !m.resumed(id).runtime[id].cancelled,
        m.resumed(id).runtime[id].intent is None,
        m.resumed(id).entries[id].status == Status::Queued,
{
}

/// The race that matters: a download paused, resumed at once, and only then
/// reported on by the attempt that was paused, is still queued under the new
/// attempt.
pub proof fn law_pause_resume_race_keeps_the_download(
    m: ManagerView,
    id: u64,
    generation: u64,
    url: LinkView,
    control_exists: bool,
    outcome: Terminal,
    now: u64,
)
    requires
        m.wf(),
        m.is_current(id, generation),
        m.entries[id].status.active(),
        m.next_gen < u64::MAX,
    ensures
        ({
            let paused = m.paused(id, control_exists);
            let resumed = paused.resumed(id);
            let (after, cleanup) = resumed.finalised(id, generation, outcome, control_exists, now);
            &&& m.pause_fault(id) is None
            &&& paused.resume_fault(id, Ok(url)) is None
            &&& after == resumed
            &&& cleanup == CleanupView::nothing()
            &&& after.entries[id].status == Status::Queued
        }),
{
}

/// Pausing costs nothing: nothing is deleted, the scratch paths stay known, what
/// was fetched stays counted, and the running attempt is told to stop.
pub proof fn law_pause_keeps_the_partial_data(
    m: ManagerView,
    id: u64,
    url: LinkView,
    control_exists: bool,
)
    requires
        m.wf(),
        m.pause_fault(id) is None,
    ensures
        ({
            let after = m.paused(id, control_exists);
            &&& after.scratch(id) == m.scratch(id)
            &&& after.entries[id].downloaded == m.entries[id].downloaded
            &&& after.entries[id].path == m.entries[id].path
            &&& after.entries[id].status == Status::Paused
            &&& after.entries[id].speed_bits == 0
            &&& after.runtime[id].cancelled
            &&& after.runtime[id].generation == m.runtime[id].generation
            &&& after.resume_fault(id, Ok(url)) is None
        }),
{
}

/// When a paused attempt has stopped, the row is paused and nothing is deleted;
/// when a cancelled one has, its scratch files go.
pub proof fn law_stopping_discards_only_for_a_cancel(
    m: ManagerView,
    id: u64,
    generation: u64,
    control_exists: bool,
    now: u64,
)
    requires
        m.wf(),
        m.is_current(id, generation),
    ensures
        ({
            let (after, cleanup) = m.finalised(
                id,
                generation,
                Terminal::Stopped,
                control_exists,
                now,
            );
            &&& m.runtime[id].intent == Some(Intent::Pause) || m.runtime[id].intent is None ==> {
                &&& after.entries[id].status == Status::Paused
                &&& cleanup.discard == ScratchView::none()
                &&& cleanup.delete is None
            }
            &&& m.runtime[id].intent == Some(Intent::Cancel) ==> {
                &&& after.entries[id].status == Status::Cancelled
                &&& !after.entries[id].resumable
                &&& cleanup.discard == m.scratch(id)
                &&& cleanup.delete is None
            }
        }),
{
}

/// Removing takes the row, its runtime and its place in the order away, and
/// leaves every other row alone. A running download's row goes the same way once
/// its attempt has stopped, whatever that came to.
pub proof fn law_remove_forgets_the_row_alone(
    m: ManagerView,
    id: u64,
    other: u64,
    generation: u64,
    delete_file: bool,
    outcome: Terminal,
    control_exists: bool,
    now: u64,
)
    requires
        m.wf(),
        m.entries.dom().contains(id),
        other != id,
    ensures
        ({
            let gone = m.forgotten(id);
            &&& !gone.entries.dom().contains(id)
            &&& !gone.runtime.dom().contains(id)
            &&& !gone.order.contains(id)
            &&& gone.entries.dom().contains(other) == m.entries.dom().contains(other)
            &&& gone.entries[other] == m.entries[other]
            &&& gone.runtime.dom().contains(other) == m.runtime.dom().contains(other)
            &&& gone.runtime[other] == m.runtime[other]
            &&& gone.order.contains(other) == m.order.contains(other)
            &&& !m.entries[id].status.active() ==> m.removed(id, delete_file) == gone
            &&& m.entries[id].status.active() && m.is_current(id, generation) ==> {
                let asked = m.removed(id, delete_file);
                let (after, cleanup) = asked.finalised(
                    id,
                    generation,
                    outcome,
                    control_exists,
                    now,
                );
                &&& asked.entries == m.entries
                &&& asked.runtime[id].cancelled
                &&& after.entries == gone.entries
                &&& after.order == gone.order
                &&& cleanup.discard == m.scratch(id)
                &&& cleanup.event == Some(EventView::Removed(id))
                &&& !delete_file ==> cleanup.delete is None
            }
        }),
{
    lemma_without_contains(m.order, id, id);
    lemma_without_contains(m.order, id, other);
    if m.entries[id].status.active() && m.is_current(id, generation) {
        let asked = m.removed(id, delete_file);
        assert(asked.runtime.remove(id) =~= m.runtime.remove(id));
    }
}

/// The order rows were added in is kept: adding appends, removing closes the
/// gap, and nothing else touches it.
pub proof fn law_the_order_is_kept(
    m: ManagerView,
    id: u64,
    url: LinkView,
    headers: Map<Seq<char>, Seq<Seq<u8>>>,
    filename: Option<Seq<char>>,
    dir: Option<Seq<char>>,
    control_exists: bool,
    now: u64,
)
    requires
        m.wf(),
        m.entries.dom().contains(id),
    ensures
        m.added(url, headers, filename, dir, now).order == m.order.push(m.next_id),
        m.paused(id, control_exists).order == m.order,
        m.resumed(id).order == m.order,
        m.cancelled(id, now).order == m.order,
        m.entries[id].status.active() ==> m.removed(id, false).order == m.order,
        m.forgotten(id).order == without(m.order, id),
{
}

/// An id is never handed out twice: a new row's id is not in the list and higher
/// than any that is, and an order without duplicates stays without.
pub proof fn law_ids_are_never_reused(
    m: ManagerView,
    id: u64,
    url: LinkView,
    headers: Map<Seq<char>, Seq<Seq<u8>>>,
    filename: Option<Seq<char>>,
    dir: Option<Seq<char>>,
    now: u64,
)
    requires
        m.wf(),
        m.next_id < u64::MAX,
    ensures
        !m.entries.dom().contains(m.next_id),
        m.entries.dom().contains(id) ==> id < m.next_id,
        m.added(url, headers, filename, dir, now).next_id > m.next_id,
        m.forgotten(id).next_id == m.next_id,
        m.order.no_duplicates() ==> m.added(
            url,
            headers,
            filename,
            dir,
            now,
        ).order.no_duplicates(),
        m.order.no_duplicates() ==> m.forgotten(id).order.no_duplicates(),
{
    if m.entries.dom().contains(m.next_id) {
        assert(m.next_id < m.next_id);
    }
    if m.order.no_duplicates() {
        let longer = m.order.push(m.next_id);
        assert(!m.order.contains(m.next_id));
        assert forall|i: int, j: int|
            0 <= i < longer.len() && 0 <= j < longer.len() && i != j implies longer[i] != longer[j] by {
            if i == m.order.len() {
                assert(m.order.contains(m.order[j]));
            }
            if j == m.order.len() {
                assert(m.order.contains(m.order[i]));
            }
        }
        lemma_without_distinct(m.order, id);
    }
}

proof fn lemma_without_distinct(ids: Seq<u64>, id: u64)
    requires
        ids.no_duplicates(),
    ensures
        without(ids, id).no_duplicates(),
    decreases ids.len(),
{
    if ids.len() > 0 {
        let front = ids.drop_last();
        assert(front.no_duplicates());
        lemma_without_distinct(front, id);
        if ids.last() != id {
            let kept = without(front, id);
            lemma_without_contains(front, id, ids.last());
            assert(!front.contains(ids.last())) by {
                if front.contains(ids.last()) {
                    let i = choose|i: int| 0 <= i < front.len() && front[i] == ids.last();
                    assert(ids[i] == ids[ids.len() - 1]);
                }
            }
            let all = kept.push(ids.last());
            assert forall|i: int, j: int|
                0 <= i < all.len() && 0 <= j < all.len() && i != j implies all[i] != all[j] by {
                if i == kept.len() {
                    assert(kept.contains(kept[j]));
                }
                if j == kept.len() {
                    assert(kept.contains(kept[i]));
                }
            }
        }
    }
}

/// The rows a watcher of the list shows after an event: every event says what
/// becomes of one row as a whole.
pub open spec fn watched(shown: Map<u64, EntryView>, event: EventView) -> Map<u64, EntryView> {
    match event {
        EventView::Added(e) => shown.insert(e.id, e),
        EventView::Changed(e) => shown.insert(e.id, e),
        EventView::Removed(id) => shown.remove(id),
    }
}

/// The rows a watcher shows after an event, if there was one.
pub open spec fn watched_opt(shown: Map<u64, EntryView>, event: Option<EventView>) -> Map<
    u64,
    EntryView,
> {
    match event {
        Some(e) => watched(shown, e),
        None => shown,
    }
}

/// The rows a watcher shows after several events.
pub open spec fn watched_all(shown: Map<u64, EntryView>, events: Seq<EventView>) -> Map<
    u64,
    EntryView,
>
    decreases events.len(),
{
    if events.len() == 0 {
        shown
    } else {
        watched(watched_all(shown, events.drop_last()), events.last())
    }
}

/// The rows a watcher shows after the events of several clean-ups.
pub open spec fn watched_cleanups(shown: Map<u64, EntryView>, v: Seq<CleanupView>) -> Map<
    u64,
    EntryView,
>
    decreases v.len(),
{
    if v.len() == 0 {
        shown
    } else {
        watched_opt(watched_cleanups(shown, v.drop_last()), v.last().event)
    }
}

/// The row an event is about.
pub open spec fn event_row(event: EventView) -> u64 {
    match event {
        EventView::Added(e) => e.id,
        EventView::Changed(e) => e.id,
        EventView::Removed(id) => id,
    }
}

/// An event seen twice does no harm, and one that was missed is made good by the
/// next about the same row: what a watcher shows of a row depends on the last
/// event about it alone.
pub proof fn law_an_event_settles_its_row(
    shown: Map<u64, EntryView>,
    other: Map<u64, EntryView>,
    event: EventView,
)
    ensures
        watched(watched(shown, event), event) == watched(shown, event),
        ({
            let row = event_row(event);
            &&& watched(shown, event).dom().contains(row) == watched(other, event).dom().contains(
                row,
            )
            &&& watched(shown, event).dom().contains(row) ==> watched(shown, event)[row]
                == watched(other, event)[row]
        }),
{
    assert(watched(watched(shown, event), event) =~= watched(shown, event));
}

/// A watcher that applies the events of what users do shows the rows as they
/// are. Asking a running download to go away changes no row yet, and sends
/// nothing.
pub proof fn law_the_users_events_keep_a_watcher_in_step(
    m: ManagerView,
    id: u64,
    url: LinkView,
    headers: Map<Seq<char>, Seq<Seq<u8>>>,
    filename: Option<Seq<char>>,
    target_dir: Option<Seq<char>>,
    control_exists: bool,
    delete_file: bool,
    now: u64,
)
    requires
        m.wf(),
        m.entries.dom().contains(id),
    ensures
        ({
            let after = m.added(url, headers, filename, target_dir, now);
            watched(m.entries, EventView::Added(after.entries[m.next_id])) == after.entries
        }),
        ({
            let after = m.paused(id, control_exists);
            watched(m.entries, EventView::Changed(after.entries[id])) == after.entries
        }),
        ({
            let after = m.resumed(id);
            watched(m.entries, EventView::Changed(after.entries[id])) == after.entries
        }),
        ({
            let after = m.cancelled(id, now);
            watched(m.entries, EventView::Changed(after.entries[id])) == after.entries
        }),
        if m.entries[id].status.active() {
            m.removed(id, delete_file).entries == m.entries
        } else {
            watched(m.entries, EventView::Removed(id)) == m.removed(id, delete_file).entries
        },
{
    assert(m.entries[id].id == id);
}

/// A watcher that applies the events of an attempt shows the rows as they are,
/// through its start and its progress to its end.
pub proof fn law_an_attempts_events_keep_a_watcher_in_step(
    m: ManagerView,
    id: u64,
    generation: u64,
    info: StartInfo,
    p: ProgressSnapshot,
    category: Category,
    media: MediaProgress,
    outcome: Terminal,
    control_exists: bool,
    now: u64,
)
    requires
        m.wf(),
    ensures
        ({
            let after = m.started(id, generation, info);
            let event = if m.may_write(id, generation) {
                Some(EventView::Changed(after.entries[id]))
            } else {
                None
            };
            watched_opt(m.entries, event) == after.entries
        }),
        ({
            let after = m.progressed(id, generation, p);
            let event = if m.may_write(id, generation) {
                Some(EventView::Changed(after.entries[id]))
            } else {
                None
            };
            watched_opt(m.entries, event) == after.entries
        }),
        ({
            let after = m.media_started(id, generation, category);
            let event = if m.is_current(id, generation) {
                Some(EventView::Changed(after.entries[id]))
            } else {
                None
            };
            watched_opt(m.entries, event) == after.entries
        }),
        ({
            let after = m.media_progressed(id, generation, media);
            let event = if m.is_current(id, generation) {
                Some(EventView::Changed(after.entries[id]))
            } else {
                None
            };
            watched_opt(m.entries, event) == after.entries
        }),
        ({
            let (after, cleanup) = m.finalised(id, generation, outcome, control_exists, now);
            watched_opt(m.entries, cleanup.event) == after.entries
        }),
{
    if m.is_current(id, generation) {
        assert(m.runtime.dom().contains(id));
        assert(m.entries[id].id == id);
    }
}

/// Every row goes by its own id.
spec fn rows_by_id(m: ManagerView) -> bool {
    forall|x: u64| #[trigger] m.entries.dom().contains(x) ==> m.entries[x].id == x
}

proof fn lemma_pausing_in_step(m: ManagerView, ids: Seq<u64>, on_disk: Seq<u64>)
    requires
        rows_by_id(m),
    ensures
        rows_by_id(m.pausing(ids, on_disk).0),
        watched_all(m.entries, m.pausing(ids, on_disk).1) == m.pausing(ids, on_disk).0.entries,
    decreases ids.len(),
{
    if ids.len() > 0 {
        lemma_pausing_in_step(m, ids.drop_last(), on_disk);
        let (before, events) = m.pausing(ids.drop_last(), on_disk);
        let id = ids.last();
        if before.pause_fault(id) is None {
            let after = before.paused(id, on_disk.contains(id));
            assert(events.push(EventView::Changed(after.entries[id])).drop_last() =~= events);
            assert(before.entries[id].id == id);
        }
    }
}

proof fn lemma_resuming_in_step(m: ManagerView, ids: Seq<u64>)
    requires
        rows_by_id(m),
    ensures
        rows_by_id(m.resuming(ids).0),
        watched_all(
            m.entries,
            m.resuming(ids).1.map_values(|r: (AttemptView, EventView)| r.1),
        ) == m.resuming(ids).0.entries,
    decreases ids.len(),
{
    let event_of = |r: (AttemptView, EventView)| r.1;
    if ids.len() == 0 {
        assert(m.resuming(ids).1.map_values(event_of) =~= Seq::<EventView>::empty());
    } else {
        lemma_resuming_in_step(m, ids.drop_last());
        let (before, out) = m.resuming(ids.drop_last());
        let id = ids.last();
        if before.resume_fault(id, parsed_link(before.entries[id].url)) is None {
            let all = m.resuming(ids).1;
            assert(all.map_values(event_of).drop_last() =~= out.map_values(event_of));
            assert(before.entries[id].id == id);
        }
    }
}

proof fn lemma_clearing_in_step(m: ManagerView, ids: Seq<u64>)
    ensures
        watched_cleanups(m.entries, m.clearing(ids).1) == m.clearing(ids).0.entries,
    decreases ids.len(),
{
    if ids.len() > 0 {
        lemma_clearing_in_step(m, ids.drop_last());
        let (before, out) = m.clearing(ids.drop_last());
        if before.absent_fault(ids.last()) is None {
            assert(m.clearing(ids).1.drop_last() =~= out);
        }
    }
}

/// A watcher that applies the events of a bulk operation shows the rows as they
/// are.
pub proof fn law_bulk_events_keep_a_watcher_in_step(
    m: ManagerView,
    ids: Seq<u64>,
    on_disk: Seq<u64>,
)
    requires
        m.wf(),
    ensures
        ({
            let (after, events) = m.pausing(ids, on_disk);
            watched_all(m.entries, events) == after.entries
        }),
        ({
            let (after, out) = m.resuming(ids);
            watched_all(
                m.entries,
                out.map_values(|r: (AttemptView, EventView)| r.1),
            ) == after.entries
        }),
        ({
            let (after, out) = m.clearing(ids);
            watched_cleanups(m.entries, out) == after.entries
        }),
{
    lemma_pausing_in_step(m, ids, on_disk);
    lemma_resuming_in_step(m, ids);
    lemma_clearing_in_step(m, ids);
}

/// Headers live in memory only: after a restart no row has any, and a row that
/// is resumed then asks without them.
pub proof fn law_headers_do_not_survive_a_restart(
    next_id: u64,
    v: Seq<EntryView>,
    max_active: int,
    id: u64,
)
    ensures
        ({
            let m = restored_list(next_id, v, max_active);
            &&& m.runtime.dom().contains(id) ==> m.runtime[id].headers == headers::no_entries()
            &&& m.resumed(id).runtime[id].headers == headers::no_entries()
        }),
{
    lemma_restored(v, id);
}

/// What is known of a download's scratch files outlives the attempt that learned
/// it, so a cancel that comes while an earlier attempt is still stopping knows
/// which files to delete.
pub proof fn law_scratch_paths_outlive_the_attempt(
    m: ManagerView,
    id: u64,
    generation: u64,
    p: ProgressSnapshot,
    outcome: Terminal,
    control_exists: bool,
    now: u64,
)
    requires
        m.wf(),
        m.entries.dom().contains(id),
    ensures
        m.paused(id, control_exists).scratch(id) == m.scratch(id),
        m.resumed(id).scratch(id) == m.scratch(id),
        m.cancelled(id, now).scratch(id) == m.scratch(id),
        m.progressed(id, generation, p).scratch(id) == m.scratch(id),
        ({
            let (after, cleanup) = m.finalised(id, generation, outcome, control_exists, now);
            after.entries.dom().contains(id) ==> after.scratch(id) == m.scratch(id)
        }),
{
}

impl ManagerView {
    /// Whether only failed rows give a reason for a failure.
    pub open spec fn errors_fit(self) -> bool {
        forall|id: u64| #[trigger] self.entries.dom().contains(id) ==> self.entries[id].error_fits()
    }
}

/// Only a failed row says why it failed: every operation of a user keeps that.
pub proof fn law_an_error_means_a_failure_for_users(
    m: ManagerView,
    id: u64,
    url: LinkView,
    headers: Map<Seq<char>, Seq<Seq<u8>>>,
    filename: Option<Seq<char>>,
    target_dir: Option<Seq<char>>,
    control_exists: bool,
    delete_file: bool,
    now: u64,
)
    requires
        m.wf(),
        m.errors_fit(),
        m.entries.dom().contains(id),
    ensures
        m.added(url, headers, filename, target_dir, now).errors_fit(),
        m.pause_fault(id) is None ==> m.paused(id, control_exists).errors_fit(),
        m.resumed(id).errors_fit(),
        m.cancelled(id, now).errors_fit(),
        m.cancelled(id, now).entries[id].error is None,
        m.removed(id, delete_file).errors_fit(),
{
    assert(m.entries[id].error_fits());
}

/// Only a failed row says why it failed: every step of an attempt keeps that.
pub proof fn law_an_error_means_a_failure_for_attempts(
    m: ManagerView,
    id: u64,
    generation: u64,
    info: StartInfo,
    p: ProgressSnapshot,
    category: Category,
    media: MediaProgress,
    path: PathView,
    size: u64,
    outcome: Terminal,
    control_exists: bool,
    now: u64,
)
    requires
        m.wf(),
        m.errors_fit(),
    ensures
        m.started(id, generation, info).errors_fit(),
        m.progressed(id, generation, p).errors_fit(),
        m.media_started(id, generation, category).errors_fit(),
        m.media_progressed(id, generation, media).errors_fit(),
        m.media_found(id, generation, path, size).errors_fit(),
        m.finalised(id, generation, outcome, control_exists, now).0.errors_fit(),
        m.forgotten(id).errors_fit(),
{
    if m.is_current(id, generation) {
        assert(m.runtime.dom().contains(id));
        assert(m.entries[id].error_fits());
    }
}

/// Only a failed row says why it failed: the bulk operations keep that.
pub proof fn law_an_error_means_a_failure_in_bulk(m: ManagerView, ids: Seq<u64>, on_disk: Seq<u64>)
    requires
        m.errors_fit(),
    ensures
        m.pausing(ids, on_disk).0.errors_fit(),
        m.resuming(ids).0.errors_fit(),
        m.clearing(ids).0.errors_fit(),
    decreases ids.len(),
{
    if ids.len() > 0 {
        law_an_error_means_a_failure_in_bulk(m, ids.drop_last(), on_disk);
        let id = ids.last();
        let (before, _) = m.pausing(ids.drop_last(), on_disk);
        assert(before.entries.dom().contains(id) ==> before.entries[id].error_fits());
    }
}

/// A list of which only the failed rows say why they failed comes back from a
/// restart as one.
pub proof fn law_an_error_means_a_failure_after_a_restart(
    next_id: u64,
    v: Seq<EntryView>,
    max_active: int,
)
    requires
        forall|i: int| 0 <= i < v.len() ==> (#[trigger] v[i]).error_fits(),
    ensures
        restored_list(
            next_id,
            v.map_values(|e: EntryView| store::settled(e)),
            max_active,
        ).errors_fit(),
{
    let back = v.map_values(|e: EntryView| store::settled(e));
    let m = restored_list(next_id, back, max_active);
    assert forall|id: u64| #[trigger] m.entries.dom().contains(id) implies m.entries[id].error_fits() by {
        lemma_restored(back, id);
        let i = choose|i: int| 0 <= i < back.len() && m.entries[id] == #[trigger] back[i];
        assert(back[i] == store::settled(v[i]));
        assert(v[i].error_fits());
    }
}

/// An operation on one row leaves every other row, and its runtime, as they
/// were.
pub proof fn law_other_rows_are_untouched(
    m: ManagerView,
    id: u64,
    other: u64,
    generation: u64,
    info: StartInfo,
    p: ProgressSnapshot,
    outcome: Terminal,
    control_exists: bool,
    now: u64,
)
    requires
        m.wf(),
        m.entries.dom().contains(id),
        other != id,
    ensures
        m.paused(id, control_exists).entries[other] == m.entries[other],
        m.resumed(id).entries[other] == m.entries[other],
        m.cancelled(id, now).entries[other] == m.entries[other],
        m.started(id, generation, info).entries[other] == m.entries[other],
        m.progressed(id, generation, p).entries[other] == m.entries[other],
        ({
            let (after, cleanup) = m.finalised(id, generation, outcome, control_exists, now);
            after.entries[other] == m.entries[other] && after.runtime[other] == m.runtime[other]
        }),
        m.paused(id, control_exists).runtime[other] == m.runtime[other],
        m.resumed(id).runtime[other] == m.runtime[other],
        m.cancelled(id, now).runtime[other] == m.runtime[other],
        m.started(id, generation, info).runtime[other] == m.runtime[other],
{
}

proof fn lemma_active_ids(v: Seq<EntryView>, id: u64)
    ensures
        active_ids(v).contains(id) <==> exists|i: int|
            0 <= i < v.len() && (#[trigger] v[i]).id == id && v[i].status.active(),
    decreases v.len(),
{
    if v.len() > 0 {
        let front = v.drop_last();
        lemma_active_ids(front, id);
        if v.last().status.active() {
            lemma_push_contains(active_ids(front), v.last().id, id);
        }
        if exists|i: int| 0 <= i < v.len() && (#[trigger] v[i]).id == id && v[i].status.active() {
            let i = choose|i: int|
                0 <= i < v.len() && (#[trigger] v[i]).id == id && v[i].status.active();
            if i < front.len() {
                assert(front[i] == v[i]);
            }
        }
        if exists|i: int|
            0 <= i < front.len() && (#[trigger] front[i]).id == id && front[i].status.active() {
            let i = choose|i: int|
                0 <= i < front.len() && (#[trigger] front[i]).id == id && front[i].status.active();
            assert(v[i] == front[i]);
        }
        if v.last().status.active() && v.last().id == id {
            assert(v[v.len() - 1].id == id);
        }
    }
}

proof fn lemma_pausing(m: ManagerView, ids: Seq<u64>, on_disk: Seq<u64>, id: u64)
    ensures
        ({
            let (after, events) = m.pausing(ids, on_disk);
            &&& after.entries.dom().contains(id) == m.entries.dom().contains(id)
            &&& after.order == m.order
            &&& ids.contains(id) && m.entries.dom().contains(id)
                ==> !after.entries[id].status.active()
            &&& !ids.contains(id) ==> after.entries[id] == m.entries[id]
            &&& !m.entries[id].status.active() ==> after.entries[id] == m.entries[id]
        }),
    decreases ids.len(),
{
    if ids.len() > 0 {
        let front = ids.drop_last();
        lemma_pausing(m, front, on_disk, id);
        let last = ids.last();
        lemma_push_contains(front, last, id);
        assert(front.push(last) =~= ids);
    }
}

/// After everything is paused nothing runs any more, nothing is lost from the
/// list, and rows that were not running are as they were.
pub proof fn law_pause_all_stops_everything(m: ManagerView, on_disk: Seq<u64>, id: u64)
    requires
        m.wf(),
        m.entries.dom().contains(id),
    ensures
        ({
            let (after, events) = m.pausing(active_ids(m.listed()), on_disk);
            &&& after.order == m.order
            &&& after.entries.dom().contains(id)
            &&& !after.entries[id].status.active()
            &&& !m.entries[id].status.active() ==> after.entries[id] == m.entries[id]
        }),
{
    lemma_active_ids(m.listed(), id);
    lemma_pausing(m, active_ids(m.listed()), on_disk, id);
    assert(m.order.contains(id));
    let k = choose|k: int| 0 <= k < m.order.len() && m.order[k] == id;
    assert(m.listed()[k] == m.entries[id]);
    assert(m.listed()[k].id == id);
}

proof fn lemma_finished_ids(v: Seq<EntryView>, id: u64)
    ensures
        finished_ids(v).contains(id) <==> exists|i: int|
            0 <= i < v.len() && (#[trigger] v[i]).id == id && v[i].status.finished(),
    decreases v.len(),
{
    if v.len() > 0 {
        let front = v.drop_last();
        lemma_finished_ids(front, id);
        if v.last().status.finished() {
            lemma_push_contains(finished_ids(front), v.last().id, id);
        }
        if exists|i: int| 0 <= i < v.len() && (#[trigger] v[i]).id == id && v[i].status.finished() {
            let i = choose|i: int|
                0 <= i < v.len() && (#[trigger] v[i]).id == id && v[i].status.finished();
            if i < front.len() {
                assert(front[i] == v[i]);
            }
        }
        if exists|i: int|
            0 <= i < front.len() && (#[trigger] front[i]).id == id && front[i].status.finished() {
            let i = choose|i: int|
                0 <= i < front.len() && (#[trigger] front[i]).id == id
                    && front[i].status.finished();
            assert(v[i] == front[i]);
        }
        if v.last().status.finished() && v.last().id == id {
            assert(v[v.len() - 1].id == id);
        }
    }
}

proof fn lemma_clearing(m: ManagerView, ids: Seq<u64>, id: u64)
    requires
        forall|x: u64| ids.contains(x) ==> !(#[trigger] m.entries[x]).status.active(),
    ensures
        ({
            let (after, out) = m.clearing(ids);
            &&& ids.contains(id) ==> !after.entries.dom().contains(id)
            &&& !ids.contains(id) ==> after.entries.dom().contains(id)
                == m.entries.dom().contains(id)
            &&& after.entries.dom().contains(id) ==> after.entries[id] == m.entries[id]
            &&& forall|k: int| 0 <= k < out.len() ==> (#[trigger] out[k]).delete is None
        }),
    decreases ids.len(),
{
    if ids.len() > 0 {
        let front = ids.drop_last();
        let last = ids.last();
        assert(front.push(last) =~= ids);
        assert forall|x: u64| front.contains(x) implies !(#[trigger] m.entries[x]).status.active() by {
            lemma_push_contains(front, last, x);
        }
        lemma_push_contains(front, last, last);
        lemma_push_contains(front, last, id);
        lemma_clearing(m, front, id);
        lemma_clearing(m, front, last);
    }
}

/// Clearing takes exactly the finished rows out of the list, and deletes no
/// finished file.
pub proof fn law_clear_finished_takes_only_finished_rows(m: ManagerView, id: u64)
    requires
        m.wf(),
        m.entries.dom().contains(id),
    ensures
        ({
            let (after, out) = m.clearing(finished_ids(m.listed()));
            &&& after.entries.dom().contains(id) <==> !m.entries[id].status.finished()
            &&& after.entries.dom().contains(id) ==> after.entries[id] == m.entries[id]
            &&& forall|k: int| 0 <= k < out.len() ==> (#[trigger] out[k]).delete is None
        }),
{
    let ids = finished_ids(m.listed());
    lemma_finished_ids(m.listed(), id);
    assert(m.order.contains(id));
    let k = choose|k: int| 0 <= k < m.order.len() && m.order[k] == id;
    assert(m.listed()[k] == m.entries[id]);
    assert(m.listed()[k].id == id);
    assert forall|x: u64| ids.contains(x) implies !(#[trigger] m.entries[x]).status.active() by {
        lemma_finished_ids(m.listed(), x);
        let i = choose|i: int|
            0 <= i < m.listed().len() && (#[trigger] m.listed()[i]).id == x
                && m.listed()[i].status.finished();
        assert(m.order.contains(m.order[i]));
        assert(m.listed()[i] == m.entries[m.order[i]]);
    }
    if ids.contains(id) {
        let i = choose|i: int|
            0 <= i < m.listed().len() && (#[trigger] m.listed()[i]).id == id
                && m.listed()[i].status.finished();
        assert(m.order.contains(m.order[i]));
        assert(m.listed()[i] == m.entries[m.order[i]]);
    }
    lemma_clearing(m, ids, id);
}

/// The headers the browser handed over belong to the download: whatever happens to
/// its row, they stay with it, and what it was added with is what it has.
pub proof fn law_headers_follow_the_download(
    m: ManagerView,
    id: u64,
    generation: u64,
    url: LinkView,
    headers: Map<Seq<char>, Seq<Seq<u8>>>,
    filename: Option<Seq<char>>,
    target_dir: Option<Seq<char>>,
    info: StartInfo,
    p: ProgressSnapshot,
    outcome: Terminal,
    control_exists: bool,
    now: u64,
)
    ensures
        m.added(url, headers, filename, target_dir, now).runtime[m.next_id].headers == headers,
        m.runtime.dom().contains(id) ==> {
            let kept = m.runtime[id].headers;
            &&& m.paused(id, control_exists).runtime[id].headers == kept
            &&& m.resumed(id).runtime[id].headers == kept
            &&& m.cancelled(id, now).runtime[id].headers == kept
            &&& m.started(id, generation, info).runtime[id].headers == kept
            &&& m.progressed(id, generation, p).runtime[id].headers == kept
            &&& m.finalised(id, generation, outcome, control_exists, now).0.runtime.dom().contains(
                id,
            ) ==> m.finalised(id, generation, outcome, control_exists, now).0.runtime[id].headers
                == kept
        },
        !m.runtime.dom().contains(id) ==> m.resumed(id).runtime[id].headers
            == Map::<Seq<char>, Seq<Seq<u8>>>::empty(),
{
    assert(headers::no_entries() =~= Map::<Seq<char>, Seq<Seq<u8>>>::empty());
}

/// What the engine is asked to fetch is what was asked of the list: the URL, the
/// headers, the name and the folder of the download that was added.
pub proof fn law_what_was_added_is_fetched(
    m: ManagerView,
    url: LinkView,
    headers: Map<Seq<char>, Seq<Seq<u8>>>,
    filename: Option<Seq<char>>,
    target_dir: Option<Seq<char>>,
    now: u64,
)
    requires
        m.next_id < u64::MAX,
        m.next_gen < u64::MAX,
    ensures
        ({
            let after = m.added(url, headers, filename, target_dir, now);
            let attempt = m.first_attempt(url, filename, target_dir);
            let row = after.entries[m.next_id];
            &&& after.begun(attempt) == (
                after,
                BeginView::Run(RequestView { url, headers, filename, target_dir }),
            )
            &&& !after.must_stop(attempt.id, attempt.generation)
            &&& after.may_write(attempt.id, attempt.generation)
            &&& row.id == m.next_id && row.url == url.text && row.status == Status::Queued
            &&& filename matches Some(n) ==> row.filename == n
            &&& row.downloaded == 0 && row.added_at == now && row.error is None
            &&& after.order == m.order.push(m.next_id)
        }),
{
}

/// A resumed download goes on where it went before, under the name it had, with the
/// headers it had, from the URL it has; where no destination was settled yet, it goes
/// where it was first asked to.
pub proof fn law_a_resumed_download_goes_where_it_went(m: ManagerView, id: u64, url: LinkView)
    requires
        m.next_gen < u64::MAX,
        m.entries.dom().contains(id),
    ensures
        ({
            let after = m.resumed(id);
            let attempt = m.next_attempt(id, url);
            let row = m.entries[id];
            let (same, found) = after.begun(attempt);
            &&& same == after
            &&& !after.must_stop(id, attempt.generation)
            &&& found matches BeginView::Run(r) && {
                &&& r.url == url
                &&& m.runtime.dom().contains(id) ==> r.headers == m.runtime[id].headers
                &&& row.path matches Some(p) ==> (p.name.len() > 0 ==> r.filename == Some(p.name)
                    && r.target_dir == Some(p.dir))
                &&& row.path is None ==> r.filename is None
                &&& row.path is None && m.runtime.dom().contains(id) ==> r.target_dir
                    == m.runtime[id].target_dir
            }
            &&& after.entries[id].url == row.url
            &&& after.entries[id].path == row.path
            &&& after.entries[id].filename == row.filename
            &&& after.entries[id].downloaded == row.downloaded
            &&& after.entries[id].total == row.total
            &&& after.entries[id].added_at == row.added_at
            &&& after.entries[id].error is None && after.entries[id].finished_at is None
        }),
{
}

/// Each request is refused exactly where it makes no sense: a row that is not there,
/// a pause of what does not run, a resume of what runs or is complete, and a URL that
/// cannot be read.
pub proof fn law_only_senseless_requests_are_refused(
    m: ManagerView,
    id: u64,
    parsed: Result<LinkView, Seq<char>>,
)
    ensures
        !m.entries.dom().contains(id) ==> {
            &&& m.pause_fault(id) == Some(ManagerErrorView::NotFound(id))
            &&& m.resume_fault(id, parsed) == Some(ManagerErrorView::NotFound(id))
            &&& m.absent_fault(id) == Some(ManagerErrorView::NotFound(id))
        },
        m.entries.dom().contains(id) ==> {
            let s = m.entries[id].status;
            &&& m.absent_fault(id) is None
            &&& m.pause_fault(id) is None <==> s == Status::Queued || s == Status::Connecting || s
                == Status::Downloading
            &&& s == Status::Paused || s == Status::Failed || s == Status::Cancelled ==> (
            m.resume_fault(id, parsed) is None <==> parsed is Ok)
            &&& s == Status::Queued || s == Status::Connecting || s == Status::Downloading || s
                == Status::Completed ==> (m.resume_fault(id, parsed) matches Some(
                ManagerErrorView::WrongState { id: who, status, action },
            ) && who == id && status == s)
            &&& s == Status::Paused && parsed is Err ==> m.resume_fault(id, parsed) == Some(
                ManagerErrorView::BadUrl { id, url: m.entries[id].url },
            )
        },
{
}

/// Stopping a row leaves what was fetched, and where it is, on record; it is no
/// longer resumable only where there is nothing to resume from.
pub proof fn law_a_stopped_row_keeps_its_progress(
    m: ManagerView,
    id: u64,
    control_exists: bool,
    now: u64,
)
    requires
        m.wf(),
        m.entries.dom().contains(id),
    ensures
        ({
            let row = m.entries[id];
            let paused = m.paused(id, control_exists).entries[id];
            let cancelled = m.cancelled(id, now).entries[id];
            &&& paused.url == row.url && paused.filename == row.filename && paused.path == row.path
            &&& paused.downloaded == row.downloaded && paused.total == row.total
            &&& paused.category == row.category && paused.added_at == row.added_at
            &&& paused.resumable <==> control_exists && m.runtime.dom().contains(id)
                && m.runtime[id].control is Some
            &&& cancelled.status == Status::Cancelled && !cancelled.resumable
            &&& cancelled.url == row.url && cancelled.downloaded == row.downloaded
            &&& cancelled.path == row.path && cancelled.finished_at == Some(now)
            &&& paused.speed_bits == 0 && paused.eta_secs is None && paused.active_connections == 0
            &&& cancelled.speed_bits == 0 && cancelled.active_connections == 0
        }),
        m.runtime.dom().contains(id) ==> m.paused(id, control_exists).must_stop(
            id,
            m.runtime[id].generation,
        ),
        m.entries[id].status.active() ==> m.cancelled(id, now).must_stop(
            id,
            m.runtime[id].generation,
        ) && m.removed(id, true).must_stop(id, m.runtime[id].generation),
{
}

/// What is on disk goes as soon as it may: at once where nothing runs, and otherwise
/// when the attempt has stopped. A finished file goes only if that was asked for.
pub proof fn law_what_is_left_on_disk_goes(
    m: ManagerView,
    id: u64,
    generation: u64,
    outcome: Terminal,
    control_exists: bool,
    now: u64,
    delete_file: bool,
)
    requires
        m.wf(),
        m.entries.dom().contains(id),
    ensures
        !m.entries[id].status.active() ==> m.discarded_by_cancel(id) == m.scratch(id)
            && m.cleaned_by_remove(id, delete_file).discard == m.scratch(id) && m.cleaned_by_remove(
            id,
            delete_file,
        ).event == Some(EventView::Removed(id)),
        m.entries[id].status.active() ==> m.discarded_by_cancel(id) == ScratchView::none()
            && m.cleaned_by_remove(id, delete_file) == CleanupView::nothing(),
        m.entries[id].status == Status::Completed ==> m.cleaned_by_remove(id, true).delete
            == m.entries[id].path,
        m.cleaned_by_remove(id, false).delete is None,
        m.entries[id].status.active() && m.is_current(id, generation) ==> {
            let (after, cleanup) = m.removed(id, delete_file).finalised(
                id,
                generation,
                outcome,
                control_exists,
                now,
            );
            &&& cleanup.discard == m.scratch(id)
            &&& cleanup.delete == (if delete_file {
                m.entries[id].path
            } else {
                None
            })
            &&& !after.entries.dom().contains(id)
        },
        m.entries[id].status.active() && m.is_current(id, generation) ==> m.cancelled(
            id,
            now,
        ).finalised(id, generation, Terminal::Stopped, control_exists, now).1.discard == m.scratch(
            id,
        ),
{
}

/// A row says how its download ended: where the file is and how long it is, or why it
/// failed, and when. What was fetched of a failed one stays on record.
pub proof fn law_an_ended_row_says_how(
    m: ManagerView,
    id: u64,
    generation: u64,
    o: DownloadOutcome,
    err: Error,
    control_exists: bool,
    now: u64,
)
    requires
        m.is_current(id, generation),
        !(m.runtime[id].intent matches Some(Intent::Remove { .. })),
    ensures
        ({
            let (after, cleanup) = m.finalised(
                id,
                generation,
                Terminal::Done(o),
                control_exists,
                now,
            );
            let row = after.entries[id];
            &&& row.status == Status::Completed
            &&& row.path == Some(o.path@)
            &&& o.path@.name.len() > 0 ==> row.filename == o.path@.name
            &&& row.downloaded == o.bytes && row.total == Some(o.bytes)
            &&& row.category == Some(o.category)
            &&& row.error is None && !row.resumable && row.finished_at == Some(now)
            &&& row.url == m.entries[id].url && row.added_at == m.entries[id].added_at
            &&& cleanup.discard == ScratchView::none() && cleanup.delete is None
            &&& cleanup.event == Some(EventView::Changed(row))
        }),
        ({
            let (after, cleanup) = m.finalised(
                id,
                generation,
                Terminal::Failed(err),
                control_exists,
                now,
            );
            let row = after.entries[id];
            &&& row.status == Status::Failed
            &&& row.error == Some(err@.message())
            &&& row.finished_at == Some(now)
            &&& row.resumable <==> control_exists && m.runtime[id].control is Some
            &&& row.downloaded == m.entries[id].downloaded && row.path == m.entries[id].path
            &&& row.url == m.entries[id].url && row.total == m.entries[id].total
            &&& cleanup.discard == ScratchView::none() && cleanup.delete is None
            &&& cleanup.event == Some(EventView::Changed(row))
        }),
        m.runtime[id].intent != Some(Intent::Cancel) ==> {
            let (after, cleanup) = m.finalised(
                id,
                generation,
                Terminal::Stopped,
                control_exists,
                now,
            );
            let row = after.entries[id];
            &&& row.downloaded == m.entries[id].downloaded && row.path == m.entries[id].path
            &&& row.resumable <==> control_exists && m.runtime[id].control is Some
            &&& cleanup.event == Some(EventView::Changed(row))
        },
{
}

/// Being cancelled is no failure, and every other error is one.
pub proof fn law_only_a_cancel_is_no_failure(r: Result<DownloadOutcome, Error>)
    ensures
        r matches Ok(o) ==> terminal(r) == Terminal::Done(o),
        r matches Err(e) ==> (terminal(r) is Stopped <==> e@ == ErrorView::Cancelled) && (e@
            != ErrorView::Cancelled ==> terminal(r) == Terminal::Failed(e)),
{
}

/// A running row shows what its attempt reports, and keeps what that does not speak
/// of; a row that was stopped shows nothing more of it.
pub proof fn law_a_row_shows_what_is_reported(
    m: ManagerView,
    id: u64,
    generation: u64,
    info: StartInfo,
    p: ProgressSnapshot,
)
    requires
        m.is_current(id, generation),
    ensures
        m.entries[id].status.active() ==> {
            let row = m.started(id, generation, info).entries[id];
            let before = m.entries[id];
            &&& row.status == Status::Downloading
            &&& row.path == Some(info.target@)
            &&& info.target@.name.len() > 0 ==> row.filename == info.target@.name
            &&& row.total == info.total && row.category == Some(info.category)
            &&& row.resumable == info.used_ranges
            &&& row.url == before.url && row.downloaded == before.downloaded && row.added_at
                == before.added_at
        },
        m.entries[id].status.active() ==> {
            let row = m.progressed(id, generation, p).entries[id];
            let before = m.entries[id];
            &&& row.downloaded == p.downloaded && row.total == p.total
            &&& row.speed_bits == p.speed_bits && row.eta_secs == p.eta_secs
            &&& row.segments == p.segments && row.active_connections == p.active_connections
            &&& row.status == before.status && row.url == before.url && row.path == before.path
            &&& row.filename == before.filename && row.resumable == before.resumable
        },
        m.started(id, generation, info).scratch(id) == (ScratchView {
            part: Some(info.part@),
            control: Some(info.control@),
        }),
        !m.entries[id].status.active() ==> m.started(id, generation, info).entries == m.entries
            && m.progressed(id, generation, p) == m,
{
    assert(!m.entries[id].status.active() ==> m.started(id, generation, info).entries
        =~= m.entries);
}

/// The row of a media download shows what the tool reports; where it gives no size,
/// the one that is known stays.
pub proof fn law_a_row_shows_what_a_media_tool_reports(
    m: ManagerView,
    id: u64,
    generation: u64,
    category: Category,
    p: MediaProgress,
    path: PathView,
    size: u64,
)
    requires
        m.is_current(id, generation),
    ensures
        ({
            let row = m.media_started(id, generation, category).entries[id];
            row.status == Status::Downloading && row.category == Some(category) && row.error is None
                && row.url == m.entries[id].url && row.downloaded == m.entries[id].downloaded
        }),
        ({
            let row = m.media_progressed(id, generation, p).entries[id];
            &&& row.downloaded == p.downloaded && row.speed_bits == p.speed_bits
            &&& row.eta_secs == p.eta_secs && row.active_connections == p.connections
            &&& p.total is Some ==> row.total == p.total
            &&& p.total is None ==> row.total == m.entries[id].total
            &&& row.url == m.entries[id].url && row.path == m.entries[id].path
        }),
        ({
            let row = m.media_found(id, generation, path, size).entries[id];
            &&& row.path == Some(path) && row.downloaded == size && row.total == Some(size)
            &&& path.name.len() > 0 ==> row.filename == path.name
            &&& row.url == m.entries[id].url && row.status == m.entries[id].status
        }),
{
}

/// An attempt that finds its row stopped does not run, and cleans up only after a
/// removal; one that no longer owns its row does nothing at all.
pub proof fn law_a_stopped_attempt_does_not_run(m: ManagerView, a: AttemptView)
    ensures
        !m.is_current(a.id, a.generation) ==> m.begun(a) == (m, BeginView::Gone),
        m.is_current(a.id, a.generation) && !m.entries[a.id].status.active() ==> {
            let (after, found) = m.begun(a);
            &&& found is Stopped
            &&& !(m.runtime[a.id].intent matches Some(Intent::Remove { .. })) ==> after == m
                && found == BeginView::Stopped(CleanupView::nothing())
            &&& m.runtime[a.id].intent matches Some(Intent::Remove { delete_file }) ==> {
                &&& !after.entries.dom().contains(a.id)
                &&& found matches BeginView::Stopped(c) && c.discard == m.scratch(a.id) && c.event
                    == Some(EventView::Removed(a.id)) && (c.delete is Some ==> delete_file)
            }
        },
{
}

/// The bound on how many run is what was asked for, between one and thirty-two, and
/// setting it touches nothing else.
pub proof fn law_the_bound_is_as_asked(m: ManagerView, n: int)
    ensures
        1 <= n <= 32 ==> m.limited(n).max_active == n,
        n < 1 ==> m.limited(n).max_active == 1,
        n > 32 ==> m.limited(n).max_active == 32,
        m.limited(n).entries == m.entries && m.limited(n).runtime == m.runtime,
        m.limited(n).order == m.order && m.limited(n).next_id == m.next_id && m.limited(n).next_gen
            == m.next_gen,
{
}

proof fn lemma_restartable_ids(v: Seq<EntryView>, id: u64)
    ensures
        restartable_ids(v).contains(id) <==> exists|i: int|
            0 <= i < v.len() && (#[trigger] v[i]).id == id && (v[i].status == Status::Paused
                || v[i].status == Status::Failed),
    decreases v.len(),
{
    if v.len() > 0 {
        let front = v.drop_last();
        let last = v.last();
        let fits = last.status == Status::Paused || last.status == Status::Failed;
        lemma_restartable_ids(front, id);
        if fits {
            lemma_push_contains(restartable_ids(front), last.id, id);
        }
        if exists|i: int|
            0 <= i < v.len() && (#[trigger] v[i]).id == id && (v[i].status == Status::Paused
                || v[i].status == Status::Failed) {
            let i = choose|i: int|
                0 <= i < v.len() && (#[trigger] v[i]).id == id && (v[i].status == Status::Paused
                    || v[i].status == Status::Failed);
            if i < front.len() {
                assert(front[i] == v[i]);
            }
        }
        if exists|i: int|
            0 <= i < front.len() && (#[trigger] front[i]).id == id && (front[i].status
                == Status::Paused || front[i].status == Status::Failed) {
            let i = choose|i: int|
                0 <= i < front.len() && (#[trigger] front[i]).id == id && (front[i].status
                    == Status::Paused || front[i].status == Status::Failed);
            assert(v[i] == front[i]);
        }
        if fits && last.id == id {
            assert(v[v.len() - 1].id == id);
        }
    }
}

proof fn lemma_resuming(m: ManagerView, ids: Seq<u64>, id: u64)
    requires
        m.entries.dom().contains(id),
        m.next_gen + ids.len() <= u64::MAX,
    ensures
        ({
            let (after, out) = m.resuming(ids);
            let url = parsed_link(m.entries[id].url);
            &&& after.order == m.order
            &&& after.entries.dom().contains(id)
            &&& after.entries[id].url == m.entries[id].url
            &&& after.next_gen <= m.next_gen + ids.len()
            &&& !ids.contains(id) || m.resume_fault(id, url) is Some ==> after.entries[id]
                == m.entries[id] && after.runtime.dom().contains(id) == m.runtime.dom().contains(id)
                && after.runtime[id] == m.runtime[id]
            &&& ids.contains(id) && m.resume_fault(id, url) is None ==> {
                &&& after.entries[id].status == Status::Queued
                &&& exists|k: int|
                    0 <= k < out.len() && (#[trigger] out[k]).0.id == id && out[k].0.url
                        == url->Ok_0 && after.is_current(id, out[k].0.generation)
            }
            &&& m.runtime.dom().contains(id) ==> after.runtime.dom().contains(id)
                && after.runtime[id].headers == m.runtime[id].headers
        }),
    decreases ids.len(),
{
    if ids.len() > 0 {
        let front = ids.drop_last();
        let last = ids.last();
        assert(front.push(last) =~= ids);
        lemma_push_contains(front, last, id);
        lemma_resuming(m, front, id);
        let (mid, so_far) = m.resuming(front);
        let (after, out) = m.resuming(ids);
        let url = parsed_link(m.entries[id].url);
        if front.contains(id) && m.resume_fault(id, url) is None {
            let k = choose|k: int|
                0 <= k < so_far.len() && (#[trigger] so_far[k]).0.id == id && so_far[k].0.url
                    == url->Ok_0 && mid.is_current(id, so_far[k].0.generation);
            assert(out[k] == so_far[k]);
        }
        if last == id && !front.contains(id) && m.resume_fault(id, url) is None {
            assert(out[so_far.len() as int].0.id == id);
        }
    }
}

/// Resuming everything starts an attempt for every paused or failed row whose URL can
/// be read, with its headers, and leaves every other row as it was.
pub proof fn law_resume_all_restarts_what_it_can(m: ManagerView, id: u64)
    requires
        m.wf(),
        m.entries.dom().contains(id),
        m.next_gen + m.order.len() <= u64::MAX,
    ensures
        ({
            let (after, out) = m.resuming(restartable_ids(m.listed()));
            let s = m.entries[id].status;
            let url = parsed_link(m.entries[id].url);
            let wanted = (s == Status::Paused || s == Status::Failed) && url is Ok;
            &&& after.order == m.order && after.entries.dom().contains(id)
            &&& wanted ==> after.entries[id].status == Status::Queued && exists|k: int|
                0 <= k < out.len() && (#[trigger] out[k]).0.id == id && out[k].0.url == url->Ok_0
                    && after.is_current(id, out[k].0.generation)
            &&& !wanted ==> after.entries[id] == m.entries[id]
            &&& m.runtime.dom().contains(id) ==> after.runtime[id].headers == m.runtime[id].headers
        }),
{
    let ids = restartable_ids(m.listed());
    lemma_restartable_len(m.listed());
    lemma_restartable_ids(m.listed(), id);
    lemma_resuming(m, ids, id);
    assert(m.order.contains(id));
    let k = choose|k: int| 0 <= k < m.order.len() && m.order[k] == id;
    assert(m.listed()[k] == m.entries[id]);
    assert(m.listed()[k].id == id);
    if ids.contains(id) {
        let i = choose|i: int|
            0 <= i < m.listed().len() && (#[trigger] m.listed()[i]).id == id && (
            m.listed()[i].status == Status::Paused || m.listed()[i].status == Status::Failed);
        assert(m.order.contains(m.order[i]));
        assert(m.listed()[i] == m.entries[m.order[i]]);
    }
}

/// A list that was saved comes back row for row, in its order, and with at least one
/// download allowed to run.
pub proof fn law_a_saved_list_comes_back(next_id: u64, v: Seq<EntryView>, max_active: int, i: int)
    requires
        0 <= i < v.len(),
        forall|j: int, k: int| 0 <= j < k < v.len() ==> (#[trigger] v[j]).id != (#[trigger] v[k]).id,
    ensures
        ({
            let m = restored_list(next_id, v, max_active);
            &&& m.entries.dom().contains(v[i].id)
            &&& m.entries[v[i].id] == v[i]
            &&& m.order.len() == v.len() && m.order[i] == v[i].id
            &&& m.listed()[i] == v[i]
            &&& m.next_id == next_id
            &&& max_active >= 1 ==> m.max_active == max_active
            &&& m.max_active >= 1
            &&& v[i].status == Status::Paused ==> m.runtime.dom().contains(v[i].id)
        }),
    decreases v.len(),
{
    lemma_restored(v, v[i].id);
    let id = v[i].id;
    let j = choose|j: int| 0 <= j < v.len() && restored_entries(v)[id] == #[trigger] v[j];
    assert(ids_of(v)[i] == id);
    assert(ids_of(v).contains(id));
    if j < i {
        assert(v[j].id != v[i].id);
    } else if i < j {
        assert(v[i].id != v[j].id);
    }
}

/// A name without an escape is shown as it stands, and an escape as the byte it
/// stands for.
pub proof fn law_a_placeholder_is_decoded(a: Seq<u8>, h: u8, l: u8, b: Seq<u8>)
    requires
        forall|i: int| 0 <= i < a.len() ==> (#[trigger] a[i]) != 0x25,
    ensures
        lenient_bytes(a) == a,
        naming::hex_pair(h, l) matches Some(x) ==> lenient_bytes(a + seq![0x25u8, h, l] + b) == a
            + seq![x] + lenient_bytes(b),
        naming::hex_pair(h, l) is None && h != 0x25 && l != 0x25 ==> lenient_bytes(
            a + seq![0x25u8, h, l],
        ) == a + seq![0x25u8, h, l],
    decreases a.len(),
{
    let whole = a + seq![0x25u8, h, l] + b;
    let short = a + seq![0x25u8, h, l];
    if a.len() > 0 {
        let rest = a.skip(1);
        law_a_placeholder_is_decoded(rest, h, l, b);
        assert(a =~= seq![a[0]] + rest);
        assert(whole.skip(1) =~= rest + seq![0x25u8, h, l] + b);
        assert(short.skip(1) =~= rest + seq![0x25u8, h, l]);
        assert(whole[0] == a[0] && short[0] == a[0]);
        if naming::hex_pair(h, l) is Some {
            let x = naming::hex_pair(h, l)->0;
            assert(lenient_bytes(whole) =~= a + seq![x] + lenient_bytes(b));
        } else if h != 0x25 && l != 0x25 {
            assert(lenient_bytes(short) =~= short);
        }
        assert(lenient_bytes(a) =~= a);
    } else {
        assert(a =~= Seq::<u8>::empty());
        assert(whole.skip(3) =~= b);
        assert(whole[0] == 0x25 && whole[1] == h && whole[2] == l);
        if naming::hex_pair(h, l) is Some {
            let x = naming::hex_pair(h, l)->0;
            assert(lenient_bytes(whole) =~= a + seq![x] + lenient_bytes(b));
        } else if h != 0x25 && l != 0x25 {
            assert(short[0] == 0x25 && short[1] == h && short[2] == l);
            assert(short.skip(1)[0] == h && short.skip(1)[1] == l);
            assert(short.skip(1).skip(1)[0] == l);
            assert(short.skip(1).skip(1).skip(1) =~= Seq::<u8>::empty());
            reveal_with_fuel(lenient_bytes, 4);
            assert(lenient_bytes(short) =~= short);
        }
    }
}

/// A row is named after what its URL ends in until more is known, and is never without
/// a name for want of that.
pub proof fn law_a_row_is_named_after_its_url(url: LinkView)
    ensures
        url.segments matches Some(v) ==> (v.len() > 0 && v.last().len() > 0 ==> placeholder_name(
            url,
        ) == text::lossy_utf8(lenient_bytes(vstd::utf8::encode_utf8(v.last())))),
        url.segments matches Some(v) ==> (v.len() > 0 && v.last().len() == 0 ==> placeholder_name(
            url,
        ) == "download"@),
        url.segments is None ==> placeholder_name(url) == "download"@,
{
}

} // verus!
