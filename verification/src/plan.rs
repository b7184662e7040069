//! Segment planning and dynamic splitting.
//!
//! A file is fetched as a set of contiguous byte ranges. When a connection
//! frees up, the segment with the most work left is cut in half and its back
//! half is handed over, so one slow connection never holds up the whole
//! transfer.

use vstd::prelude::*;

verus! {

/// What a segment is, mathematically: a byte range, and how far it has got.
pub struct SegmentView {
    pub index: u32,
    pub start: u64,
    /// Inclusive.
    pub end: u64,
    pub done: u64,
    pub active: bool,
}

impl SegmentView {
    /// An untouched segment covering `start..=end`.
    pub open spec fn fresh(index: u32, start: u64, end: u64) -> SegmentView {
        SegmentView { index, start, end, done: 0, active: false }
    }

    /// Absolute offset of the next byte, saturating at the largest offset.
    pub open spec fn cursor(self) -> int {
        if self.start + self.done <= u64::MAX {
            self.start + self.done
        } else {
            u64::MAX as int
        }
    }

    /// Declared length, saturating at `u64::MAX`. A range whose end lies before
    /// its start counts as one byte.
    pub open spec fn length(self) -> int {
        let span = if self.end >= self.start { self.end - self.start } else { 0 };
        if span < u64::MAX { span + 1 } else { u64::MAX as int }
    }

    /// Bytes between the cursor and the end, both included.
    pub open spec fn left(self) -> int {
        if self.cursor() > self.end { 0 } else { self.end - self.cursor() + 1 }
    }

    /// `left`, saturating at `u64::MAX`.
    pub open spec fn remaining(self) -> int {
        if self.left() <= u64::MAX { self.left() } else { u64::MAX as int }
    }

    pub open spec fn is_complete(self) -> bool {
        self.cursor() > self.end
    }

    /// Progress this segment contributes, never more than its length.
    pub open spec fn effective_done(self) -> int {
        if self.done <= self.length() { self.done as int } else { self.length() }
    }

    /// Whether byte `b` of the file belongs to this segment.
    pub open spec fn owns(self, b: int) -> bool {
        self.start <= b <= self.end
    }

    /// The segment, ended where its body ended.
    pub open spec fn closed(self) -> SegmentView {
        SegmentView { end: (self.cursor() - 1) as u64, ..self }
    }

    /// Whether `after` is this segment at some later time: the same one, from the
    /// same start, and nowhere longer.
    pub open spec fn lasts_as(self, after: SegmentView) -> bool {
        after.index == self.index && after.start == self.start && after.end <= self.end
    }

    /// What survives in the control file.
    pub open spec fn snapshot(self) -> SegmentSnapshot {
        SegmentSnapshot { index: self.index, start: self.start, end: self.end, done: self.done }
    }
}

/// One contiguous byte range of the target file.
///
/// `start` is fixed for the lifetime of the segment. `end` is inclusive and can
/// only ever move *down*: when the plan splits the segment, or when the body of
/// an open-ended one turns out to end at its cursor.
#[derive(Debug)]
pub struct Segment {
    index: u32,
    start: u64,
    end: u64,
    done: u64,
    active: bool,
}

impl View for Segment {
    type V = SegmentView;

    closed spec fn view(&self) -> SegmentView {
        SegmentView {
            index: self.index,
            start: self.start,
            end: self.end,
            done: self.done,
            active: self.active,
        }
    }
}

impl Segment {
    pub fn new(index: u32, start: u64, end: u64) -> (r: Segment)
        ensures
            r@ == SegmentView::fresh(index, start, end),
    {
        Segment { index, start, end, done: 0, active: false }
    }

    pub fn index(&self) -> (r: u32)
        ensures
            r == self@.index,
    {
        self.index
    }

    pub fn start(&self) -> (r: u64)
        ensures
            r == self@.start,
    {
        self.start
    }

    pub fn end(&self) -> (r: u64)
        ensures
            r == self@.end,
    {
        self.end
    }

    pub fn done(&self) -> (r: u64)
        ensures
            r == self@.done,
    {
        self.done
    }

    pub fn set_done(&mut self, value: u64)
        ensures
            final(self)@ == (SegmentView { done: value, ..old(self)@ }),
    {
        self.done = value;
    }

    /// Advance by `delta` bytes, all of them on disk; the new count.
    pub fn add_done(&mut self, delta: u64) -> (r: u64)
        requires
            old(self)@.done + delta <= u64::MAX,
        ensures
            r == old(self)@.done + delta,
            final(self)@ == (SegmentView { done: r, ..old(self)@ }),
    {
        self.done = self.done + delta;
        self.done
    }

    /// Absolute offset the next byte should be written to.
    pub fn cursor(&self) -> (r: u64)
        ensures
            r == self@.cursor(),
    {
        self.start.saturating_add(self.done)
    }

    /// Declared length of this segment right now, in bytes.
    pub fn len(&self) -> (r: u64)
        ensures
            r == self@.length(),
    {
        self.end.saturating_sub(self.start).saturating_add(1)
    }

    /// Never true: a range always declares at least one byte.
    pub fn is_empty(&self) -> (r: bool)
        ensures
            r == (self@.length() == 0),
            !r,
    {
        self.len() == 0
    }

    /// Bytes still to fetch. Zero once the cursor has passed `end`, which also
    /// covers the case where a split moved `end` behind an already-advanced
    /// cursor.
    pub fn remaining(&self) -> (r: u64)
        ensures
            r == self@.remaining(),
    {
        let cursor: u64 = self.cursor();
        if cursor > self.end {
            0
        } else {
            (self.end - cursor).saturating_add(1)
        }
    }

    pub fn is_complete(&self) -> (r: bool)
        ensures
            r == self@.is_complete(),
            r <==> self@.remaining() == 0,
    {
        self.remaining() == 0
    }

    /// Progress this segment contributes, clamped to its current length.
    ///
    /// After a split the original worker may have already written past its new
    /// `end`; those bytes now belong to the new segment, which will rewrite them
    /// with identical data. Clamping here prevents counting them twice.
    pub fn effective_done(&self) -> (r: u64)
        ensures
            r == self@.effective_done(),
    {
        let len: u64 = self.len();
        if self.done <= len { self.done } else { len }
    }

    fn shrink_end(&mut self, new_end: u64)
        ensures
            final(self)@ == (SegmentView { end: new_end, ..old(self)@ }),
    {
        self.end = new_end;
    }

    /// End an open-ended segment where its body ended.
    pub fn close_at_cursor(&mut self)
        requires
            0 < old(self)@.cursor() <= old(self)@.end,
        ensures
            final(self)@ == old(self)@.closed(),
            final(self)@.is_complete(),
    {
        let cursor: u64 = self.cursor();
        self.shrink_end(cursor - 1);
    }

    pub fn is_active(&self) -> (r: bool)
        ensures
            r == self@.active,
    {
        self.active
    }

    /// Claim this segment for a worker. Returns `false` if another worker
    /// already has it.
    pub fn try_activate(&mut self) -> (r: bool)
        ensures
            r == !old(self)@.active,
            final(self)@ == (SegmentView { active: true, ..old(self)@ }),
    {
        if self.active {
            false
        } else {
            self.active = true;
            true
        }
    }

    pub fn deactivate(&mut self)
        ensures
            final(self)@ == (SegmentView { active: false, ..old(self)@ }),
    {
        self.active = false;
    }

    pub fn snapshot(&self) -> (r: SegmentSnapshot)
        ensures
            r == self@.snapshot(),
    {
        SegmentSnapshot { index: self.index, start: self.start, end: self.end, done: self.done }
    }
}

/// Persistent segment state, written to the `.fdm` control file so a download
/// survives a crash, a reboot, or the user quitting mid-transfer.
#[derive(Debug, Clone, Copy, PartialEq, Eq, Structural)]
pub struct SegmentSnapshot {
    pub index: u32,
    pub start: u64,
    pub end: u64,
    pub done: u64,
}

impl SegmentSnapshot {
    /// The idle segment that resumes from this snapshot.
    pub open spec fn restored(self) -> SegmentView {
        SegmentView {
            index: self.index,
            start: self.start,
            end: self.end,
            done: self.done,
            active: false,
        }
    }
}

/// What a plan is, mathematically.
#[verifier::ext_equal]
pub struct PlanView {
    pub segments: Seq<SegmentView>,
    pub next_index: u32,
    pub total: Option<u64>,
}

/// First byte of segment `i` when `total` bytes are cut into `n` even pieces,
/// the leftover bytes going one each to the first pieces.
pub open spec fn even_start(total: int, n: int, i: int) -> int {
    i * (total / n) + if i < total % n { i } else { total % n }
}

/// How many pieces an even split makes: what was asked for, but never so many
/// that a piece would fall under `min_split`, and at least one.
pub open spec fn even_pieces(total: int, n: int, min_split: int) -> int {
    let floor = if min_split < 1 { 1 } else { min_split };
    let most = if total / floor < 1 { 1 } else { total / floor };
    if n < 1 { 1 } else if n > most { most } else { n }
}

/// The segments of an even split of `total` bytes into `n` pieces.
pub open spec fn even_segments(total: int, n: int) -> Seq<SegmentView> {
    Seq::new(
        n as nat,
        |i: int|
            SegmentView::fresh(
                i as u32,
                even_start(total, n, i) as u64,
                (even_start(total, n, i + 1) - 1) as u64,
            ),
    )
}

/// Position of the last segment that has the most work remaining.
pub open spec fn largest(segments: Seq<SegmentView>) -> int
    decreases segments.len(),
{
    if segments.len() <= 1 {
        0
    } else {
        let k = largest(segments.drop_last());
        if segments.last().remaining() >= segments[k].remaining() {
            segments.len() - 1
        } else {
            k
        }
    }
}

/// Progress over all segments.
pub open spec fn sum_done(segments: Seq<SegmentView>) -> int
    decreases segments.len(),
{
    if segments.len() == 0 {
        0
    } else {
        sum_done(segments.drop_last()) + segments.last().effective_done()
    }
}

/// Declared length over all segments.
pub open spec fn sum_length(segments: Seq<SegmentView>) -> int
    decreases segments.len(),
{
    if segments.len() == 0 {
        0
    } else {
        sum_length(segments.drop_last()) + segments.last().length()
    }
}

/// How many segments a worker holds.
pub open spec fn active_in(segments: Seq<SegmentView>) -> nat {
    segments.filter(|s: SegmentView| s.active).len()
}

/// The largest index in use, zero when there is none.
pub open spec fn max_index(snapshots: Seq<SegmentSnapshot>) -> u32
    decreases snapshots.len(),
{
    if snapshots.len() == 0 {
        0
    } else {
        let before = max_index(snapshots.drop_last());
        if snapshots.last().index > before {
            snapshots.last().index
        } else {
            before
        }
    }
}

/// A segment worth claiming: work left, and nobody on it.
pub open spec fn is_idle(s: SegmentView) -> bool {
    !s.is_complete() && !s.active
}

/// Whether some segment holds byte `b`.
pub open spec fn is_held(segments: Seq<SegmentView>, b: int) -> bool {
    exists|i: int| 0 <= i < segments.len() && (#[trigger] segments[i]).owns(b)
}

/// Every byte of `[0, total)` belongs to exactly one segment, and the segments
/// hold nothing else.
pub open spec fn tiles(segments: Seq<SegmentView>, total: int) -> bool {
    &&& forall|i: int|
        0 <= i < segments.len() ==> (#[trigger] segments[i]).start <= segments[i].end < total
    &&& forall|i: int, j: int|
        0 <= i < segments.len() && 0 <= j < segments.len() && i != j
            ==> (#[trigger] segments[i]).end < (#[trigger] segments[j]).start || segments[j].end
            < segments[i].start
    &&& forall|b: int| 0 <= b < total ==> #[trigger] is_held(segments, b)
    &&& sum_length(segments) == total
}

impl PlanView {
    /// Where the segment with the most work left would be cut, if it has at
    /// least twice `min_split` bytes left to share out.
    pub open spec fn split_point(self, min_split: int) -> Option<int> {
        let victim = self.segments[largest(self.segments)];
        let floor = if 2 * min_split <= u64::MAX { 2 * min_split } else { u64::MAX as int };
        if self.segments.len() > 0 && victim.remaining() >= floor && 2 <= victim.left()
            <= u64::MAX && victim.left() - victim.left() / 2 >= min_split {
            Some(victim.cursor() + victim.left() / 2)
        } else {
            None
        }
    }

    /// The plan after cutting its largest segment at `mid`.
    pub open spec fn split_at(self, mid: int) -> PlanView {
        let k = largest(self.segments);
        let victim = self.segments[k];
        PlanView {
            segments: self.segments.update(
                k,
                SegmentView { end: (mid - 1) as u64, ..victim },
            ).push(SegmentView::fresh(self.next_index, mid as u64, victim.end)),
            next_index: if self.next_index == u32::MAX {
                0
            } else {
                (self.next_index + 1) as u32
            },
            total: self.total,
        }
    }

    pub open spec fn is_complete(self) -> bool {
        forall|i: int| 0 <= i < self.segments.len() ==> (#[trigger] self.segments[i]).is_complete()
    }

    pub open spec fn snapshots(self) -> Seq<SegmentSnapshot> {
        self.segments.map_values(|s: SegmentView| s.snapshot())
    }

    /// An even split of a file, untouched.
    pub open spec fn even(total: u64, n: int, min_split: int) -> PlanView {
        let pieces = if total == 0 {
            0
        } else {
            even_pieces(total as int, n, min_split)
        };
        PlanView {
            segments: if total == 0 {
                Seq::empty()
            } else {
                even_segments(total as int, pieces)
            },
            next_index: pieces as u32,
            total: Some(total),
        }
    }

    /// One segment for the whole resource, open-ended where its size is not known.
    pub open spec fn single(total: Option<u64>) -> PlanView {
        PlanView {
            segments: seq![
                SegmentView::fresh(
                    0,
                    0,
                    match total {
                        Some(t) => if t == 0 {
                            0
                        } else {
                            (t - 1) as u64
                        },
                        None => u64::MAX,
                    },
                ),
            ],
            next_index: 1,
            total,
        }
    }

    /// The idle plan that resumes from `snapshots`.
    pub open spec fn restored(snapshots: Seq<SegmentSnapshot>, total: Option<u64>) -> PlanView {
        PlanView {
            segments: snapshots.map_values(|s: SegmentSnapshot| s.restored()),
            next_index: (max_index(snapshots) + 1) as u32,
            total,
        }
    }
}

/// Every segment has an index of its own, below the next one to hand out.
pub open spec fn indexed(plan: PlanView) -> bool {
    &&& forall|i: int|
        0 <= i < plan.segments.len() ==> (#[trigger] plan.segments[i]).index < plan.next_index
    &&& forall|i: int, j: int|
        0 <= i < j < plan.segments.len() ==> (#[trigger] plan.segments[i]).index != (
        #[trigger] plan.segments[j]).index
}

/// Whether no two snapshots have the same index.
pub open spec fn distinct(snapshots: Seq<SegmentSnapshot>) -> bool {
    forall|i: int, j: int|
        0 <= i < j < snapshots.len() ==> (#[trigger] snapshots[i]).index != (
        #[trigger] snapshots[j]).index
}

/// The segments of one download.
pub struct Plan {
    segments: Vec<Segment>,
    next_index: u32,
    /// `None` when the server never told us the size (no `Content-Length`),
    /// in which case there is exactly one open-ended segment.
    total: Option<u64>,
}

impl View for Plan {
    type V = PlanView;

    closed spec fn view(&self) -> PlanView {
        PlanView {
            segments: self.segments@.map_values(|s: Segment| s@),
            next_index: self.next_index,
            total: self.total,
        }
    }
}

proof fn lemma_even_start_step(total: int, n: int, i: int)
    requires
        total >= 0,
        n >= 1,
        0 <= i < n,
    ensures
        even_start(total, n, i + 1) == even_start(total, n, i) + total / n + if i < total % n {
            1int
        } else {
            0
        },
        even_start(total, n, 0) == 0,
        even_start(total, n, n) == total,
        0 <= even_start(total, n, i),
        even_start(total, n, i + 1) <= total,
{
    let base = total / n;
    let rem = total % n;
    assert(0 <= rem < n && base >= 0 && total == n * base + rem) by (nonlinear_arith)
        requires
            total >= 0,
            n >= 1,
            base == total / n,
            rem == total % n,
    ;
    assert((i + 1) * base == i * base + base) by (nonlinear_arith);
    assert(0 * base == 0);
    assert(0 <= i * base) by (nonlinear_arith)
        requires
            i >= 0,
            base >= 0,
    ;
    assert((i + 1) * base <= n * base) by (nonlinear_arith)
        requires
            i + 1 <= n,
            base >= 0,
    ;
}

/// The low 32 bits of a count.
fn truncated(n: usize) -> (r: u32)
    ensures
        r as int == n as int % 0x1_0000_0000,
{
    let wide: u64 = n as u64;
    assert(wide as u32 == wide % 0x1_0000_0000) by (bit_vector);
    wide as u32
}

/// Progress over the first segments is no more than over all.
pub proof fn lemma_sum_done_monotonic(segments: Seq<SegmentView>, n: int)
    requires
        0 <= n <= segments.len(),
    ensures
        0 <= sum_done(segments.take(n)) <= sum_done(segments),
    decreases segments.len(),
{
    if n == segments.len() {
        assert(segments.take(n) =~= segments);
        if n > 0 {
            lemma_sum_done_monotonic(segments.drop_last(), n - 1);
            assert(segments.drop_last().take(n - 1) =~= segments.drop_last());
        }
    } else {
        lemma_sum_done_monotonic(segments.drop_last(), n);
        assert(segments.drop_last().take(n) =~= segments.take(n));
    }
}

impl Plan {
    /// Cut `[0, total)` into `n` roughly equal segments.
    ///
    /// `n` is reduced when the file is too small to be worth splitting that many
    /// ways: many connections for a small file cost more in handshakes than
    /// they save.
    pub fn split_even(total: u64, n: u32, min_split: u64) -> (r: Plan)
        ensures
            r@ == PlanView::even(total, n as int, min_split as int),
            r@.total == Some(total),
            indexed(r@),
            total == 0 ==> r@.segments == Seq::<SegmentView>::empty() && r@.next_index == 0,
            total > 0 ==> {
                let pieces = even_pieces(total as int, n as int, min_split as int);
                &&& 1 <= pieces <= total
                &&& pieces <= n || pieces == 1
                &&& r@.segments == even_segments(total as int, pieces)
                &&& r@.next_index == pieces
            },
    {
        if total == 0 {
            let r = Plan { segments: Vec::new(), next_index: 0, total: Some(0) };
            assert(r@.segments =~= Seq::<SegmentView>::empty());
            return r;
        }
        let floor: u64 = if min_split < 1 { 1 } else { min_split };
        let quotient: u64 = total / floor;
        assert(quotient <= total) by (nonlinear_arith)
            requires
                quotient == total / floor,
                floor >= 1,
        ;
        let most: u64 = if quotient < 1 { 1 } else { quotient };
        let wanted: u64 = n as u64;
        let pieces: u32 = if wanted < 1 {
            1
        } else if wanted > most {
            most as u32
        } else {
            n
        };
        let base: u64 = total / pieces as u64;
        let remainder: u64 = total % pieces as u64;
        assert(base >= 1) by (nonlinear_arith)
            requires
                base == total / pieces as u64,
                pieces >= 1,
                pieces <= total,
        ;

        let mut segments: Vec<Segment> = Vec::new();
        let mut start: u64 = 0;
        let mut i: u32 = 0;
        proof {
            lemma_even_start_step(total as int, pieces as int, 0);
        }
        while i < pieces
            invariant
                i <= pieces,
                1 <= pieces <= total,
                base == total / pieces as u64,
                base >= 1,
                remainder == total % pieces as u64,
                start == even_start(total as int, pieces as int, i as int),
                segments.len() == i,
                forall|k: int|
                    0 <= k < i ==> (#[trigger] segments[k])@ == even_segments(
                        total as int,
                        pieces as int,
                    )[k],
            decreases pieces - i,
        {
            proof {
                lemma_even_start_step(total as int, pieces as int, i as int);
            }
            // Spread the remainder over the first segments so no segment is
            // short by more than a byte.
            let extra: u64 = if (i as u64) < remainder { 1 } else { 0 };
            let end: u64 = start + (base - 1) + extra;
            segments.push(Segment::new(i, start, end));
            i = i + 1;
            if i < pieces {
                proof {
                    lemma_even_start_step(total as int, pieces as int, i as int);
                }
                start = end + 1;
            } else {
                proof {
                    assert(end + 1 == total);
                }
                start = total;
            }
        }
        let r = Plan { segments, next_index: pieces, total: Some(total) };
        assert(r@.segments =~= even_segments(total as int, pieces as int));
        r
    }

    /// A single segment covering the whole resource. Used when the server
    /// doesn't support `Range`, or when the size is unknown.
    pub fn single(total: Option<u64>) -> (r: Plan)
        ensures
            r@ == PlanView::single(total),
            r@.total == total,
            r@.next_index == 1,
            indexed(r@),
            r@.segments == seq![
                SegmentView::fresh(
                    0,
                    0,
                    match total {
                        Some(t) => if t == 0 { 0 } else { (t - 1) as u64 },
                        None => u64::MAX,
                    },
                ),
            ],
    {
        let end: u64 = match total {
            Some(t) => t.saturating_sub(1),
            None => u64::MAX,
        };
        let mut segments: Vec<Segment> = Vec::new();
        segments.push(Segment::new(0, 0, end));
        let r = Plan { segments, next_index: 1, total };
        assert(r@.segments =~= seq![SegmentView::fresh(0, 0, end)]);
        r
    }

    /// Rebuild a plan from persisted state to resume a download.
    pub fn from_snapshots(snapshots: &[SegmentSnapshot], total: Option<u64>) -> (r: Plan)
        requires
            max_index(snapshots@) < u32::MAX,
        ensures
            r@ == PlanView::restored(snapshots@, total),
            distinct(snapshots@) ==> indexed(r@),
    {
        let mut highest: u32 = 0;
        let mut segments: Vec<Segment> = Vec::new();
        let mut i: usize = 0;
        assert(snapshots@.take(0) =~= Seq::<SegmentSnapshot>::empty());
        while i < snapshots.len()
            invariant
                i <= snapshots.len(),
                segments.len() == i,
                highest == max_index(snapshots@.take(i as int)),
                forall|k: int|
                    0 <= k < i ==> (#[trigger] segments[k])@ == snapshots@[k].restored(),
            decreases snapshots.len() - i,
        {
            let s: SegmentSnapshot = snapshots[i];
            proof {
                assert(snapshots@.take(i + 1).drop_last() =~= snapshots@.take(i as int));
            }
            if s.index > highest {
                highest = s.index;
            }
            let mut seg = Segment::new(s.index, s.start, s.end);
            seg.set_done(s.done);
            segments.push(seg);
            i = i + 1;
        }
        proof {
            assert(snapshots@.take(i as int) =~= snapshots@);
        }
        let r = Plan { segments, next_index: highest + 1, total };
        assert(r@.segments =~= PlanView::restored(snapshots@, total).segments);
        proof {
            lemma_restored_indices(snapshots@, total);
        }
        r
    }

    pub fn total(&self) -> (r: Option<u64>)
        ensures
            r == self@.total,
    {
        self.total
    }

    /// All segments, oldest first. A segment keeps its position for the life of
    /// the plan; splits append.
    pub fn segments(&self) -> (r: &Vec<Segment>)
        ensures
            r@.map_values(|s: Segment| s@) == self@.segments,
    {
        &self.segments
    }

    /// The segment at a position, for a worker to report on by the segment's own
    /// calls.
    pub fn segment_mut(&mut self, at: usize) -> (r: &mut Segment)
        requires
            at < old(self)@.segments.len(),
        ensures
            r@ == old(self)@.segments[at as int],
            final(self)@ == (PlanView {
                segments: old(self)@.segments.update(at as int, final(r)@),
                ..old(self)@
            }),
    {
        &mut self.segments[at]
    }

    /// Number of segments, modulo 2^32.
    pub fn count(&self) -> (r: u32)
        ensures
            r as int == self@.segments.len() as int % 0x1_0000_0000,
    {
        let n: usize = self.segments.len();
        truncated(n)
    }

    /// Number of segments a worker holds, modulo 2^32.
    pub fn active_count(&self) -> (r: u32)
        ensures
            r as int == active_in(self@.segments) as int % 0x1_0000_0000,
    {
        let mut n: usize = 0;
        let mut i: usize = 0;
        let ghost p = |s: SegmentView| s.active;
        assert(self@.segments.take(0).filter(p) =~= Seq::<SegmentView>::empty()) by {
            reveal(Seq::filter);
        }
        while i < self.segments.len()
            invariant
                i <= self.segments.len(),
                n <= i,
                p == (|s: SegmentView| s.active),
                n == self@.segments.take(i as int).filter(p).len(),
            decreases self.segments.len() - i,
        {
            proof {
                let next = self@.segments.take(i + 1);
                assert(next.drop_last() =~= self@.segments.take(i as int));
                reveal(Seq::filter);
            }
            if self.segments[i].is_active() {
                n = n + 1;
            }
            i = i + 1;
        }
        assert(self@.segments.take(i as int) =~= self@.segments);
        truncated(n)
    }

    pub fn snapshots(&self) -> (r: Vec<SegmentSnapshot>)
        ensures
            r@ == self@.snapshots(),
    {
        let mut out: Vec<SegmentSnapshot> = Vec::new();
        let mut i: usize = 0;
        while i < self.segments.len()
            invariant
                i <= self.segments.len(),
                out.len() == i,
                forall|k: int| 0 <= k < i ==> #[trigger] out[k] == self@.segments[k].snapshot(),
            decreases self.segments.len() - i,
        {
            out.push(self.segments[i].snapshot());
            i = i + 1;
        }
        assert(out@ =~= self@.snapshots());
        out
    }

    /// Total bytes fetched across all segments.
    pub fn total_done(&self) -> (r: u64)
        requires
            sum_done(self@.segments) <= u64::MAX,
        ensures
            r == sum_done(self@.segments),
    {
        let mut sum: u64 = 0;
        let mut i: usize = 0;
        assert(self@.segments.take(0) =~= Seq::<SegmentView>::empty());
        while i < self.segments.len()
            invariant
                i <= self.segments.len(),
                sum == sum_done(self@.segments.take(i as int)),
                sum_done(self@.segments) <= u64::MAX,
            decreases self.segments.len() - i,
        {
            proof {
                assert(self@.segments.take(i + 1).drop_last() =~= self@.segments.take(i as int));
                lemma_sum_done_monotonic(self@.segments, i + 1);
            }
            sum = sum + self.segments[i].effective_done();
            i = i + 1;
        }
        assert(self@.segments.take(i as int) =~= self@.segments);
        sum
    }

    /// Total bytes fetched across all segments, if the sum can be held. A plan
    /// that tiles its file always has one.
    pub fn checked_total_done(&self) -> (r: Option<u64>)
        ensures
            match r {
                Some(n) => n == sum_done(self@.segments),
                None => sum_done(self@.segments) > u64::MAX,
            },
    {
        let mut sum: u64 = 0;
        let mut i: usize = 0;
        assert(self@.segments.take(0) =~= Seq::<SegmentView>::empty());
        while i < self.segments.len()
            invariant
                i <= self.segments.len(),
                sum == sum_done(self@.segments.take(i as int)),
            decreases self.segments.len() - i,
        {
            proof {
                assert(self@.segments.take(i + 1).drop_last() =~= self@.segments.take(i as int));
                lemma_sum_done_monotonic(self@.segments, i + 1);
            }
            match sum.checked_add(self.segments[i].effective_done()) {
                Some(next) => {
                    sum = next;
                },
                None => {
                    return None;
                },
            }
            i = i + 1;
        }
        assert(self@.segments.take(i as int) =~= self@.segments);
        Some(sum)
    }

    pub fn is_complete(&self) -> (r: bool)
        ensures
            r == self@.is_complete(),
    {
        let mut i: usize = 0;
        while i < self.segments.len()
            invariant
                i <= self.segments.len(),
                forall|k: int| 0 <= k < i ==> (#[trigger] self@.segments[k]).is_complete(),
            decreases self.segments.len() - i,
        {
            if !self.segments[i].is_complete() {
                assert(!self@.segments[i as int].is_complete());
                return false;
            }
            i = i + 1;
        }
        true
    }

    /// Claim an incomplete segment nobody is working on: the first one, which is
    /// then active. Used on resume, where the persisted plan already has gaps to
    /// fill.
    pub fn claim_idle(&mut self) -> (r: Option<usize>)
        ensures
            match r {
                Some(at) => {
                    &&& at < old(self)@.segments.len()
                    &&& is_idle(old(self)@.segments[at as int])
                    &&& forall|k: int|
                        0 <= k < at ==> !is_idle(#[trigger] old(self)@.segments[k])
                    &&& final(self)@ == (PlanView {
                        segments: old(self)@.segments.update(
                            at as int,
                            SegmentView { active: true, ..old(self)@.segments[at as int] },
                        ),
                        ..old(self)@
                    })
                },
                None => {
                    &&& forall|k: int|
                        0 <= k < old(self)@.segments.len() ==> !is_idle(
                            #[trigger] old(self)@.segments[k],
                        )
                    &&& final(self)@ == old(self)@
                },
            },
    {
        let mut i: usize = 0;
        while i < self.segments.len()
            invariant
                i <= self.segments.len(),
                *self == *old(self),
                forall|k: int| 0 <= k < i ==> !is_idle(#[trigger] self@.segments[k]),
            decreases self.segments.len() - i,
        {
            if !self.segments[i].is_complete() && !self.segments[i].is_active() {
                let _ = self.segments[i].try_activate();
                assert(self@.segments =~= old(self)@.segments.update(
                    i as int,
                    SegmentView { active: true, ..old(self)@.segments[i as int] },
                ));
                return Some(i);
            }
            i = i + 1;
        }
        None
    }

    /// Position of the last segment with the most work remaining.
    fn largest_at(&self) -> (r: usize)
        requires
            self@.segments.len() > 0,
        ensures
            r < self@.segments.len(),
            r == largest(self@.segments),
    {
        let mut best: usize = 0;
        let mut i: usize = 1;
        while i < self.segments.len()
            invariant
                1 <= i <= self.segments.len(),
                best < i,
                best == largest(self@.segments.take(i as int)),
            decreases self.segments.len() - i,
        {
            proof {
                assert(self@.segments.take(i + 1).drop_last() =~= self@.segments.take(i as int));
            }
            if self.segments[i].remaining() >= self.segments[best].remaining() {
                best = i;
            }
            i = i + 1;
        }
        assert(self@.segments.take(i as int) =~= self@.segments);
        best
    }

    /// Take the segment with the most work remaining and cut it in half,
    /// returning the position of the new back half, ready to be activated.
    ///
    /// Returns `None` when no segment is big enough to be worth splitting:
    /// splitting below `min_split` trades useful transfer for connection setup.
    pub fn split_largest(&mut self, min_split: u64) -> (r: Option<usize>)
        ensures
            match old(self)@.split_point(min_split as int) {
                Some(mid) => {
                    &&& r matches Some(at) && at as nat == old(self)@.segments.len()
                    &&& final(self)@ == old(self)@.split_at(mid)
                    &&& indexed(old(self)@) && old(self)@.next_index < u32::MAX ==> indexed(
                        final(self)@,
                    )
                },
                None => r.is_none() && final(self)@ == old(self)@,
            },
    {
        if self.segments.len() == 0 {
            return None;
        }
        let at: usize = self.largest_at();
        let floor: u64 = match min_split.checked_mul(2) {
            Some(twice) => twice,
            None => u64::MAX,
        };
        if self.segments[at].remaining() < floor {
            return None;
        }
        let cursor: u64 = self.segments[at].cursor();
        let end: u64 = self.segments[at].end();
        if cursor > end {
            return None;
        }
        let remaining: u64 = match (end - cursor).checked_add(1) {
            Some(n) => n,
            None => return None,
        };
        let mid: u64 = cursor + remaining / 2;
        // Both halves must stay above the floor, and the split must actually
        // move the boundary.
        if mid <= cursor || mid > end || end - mid + 1 < min_split {
            return None;
        }
        self.segments[at].shrink_end(mid - 1);
        let fresh: usize = self.segments.len();
        let index: u32 = self.next_index;
        self.next_index = index.wrapping_add(1);
        self.segments.push(Segment::new(index, mid, end));
        assert(self@.segments =~= old(self)@.split_at(mid as int).segments);
        proof {
            if indexed(old(self)@) && index < u32::MAX {
                law_indices_stay_unique(old(self)@, min_split as int);
            }
        }
        Some(fresh)
    }
}

/// The segment chosen for splitting has at least as much work left as any
/// other, and more than any that comes after it.
pub proof fn law_largest_has_most_left(segments: Seq<SegmentView>)
    requires
        segments.len() > 0,
    ensures
        0 <= largest(segments) < segments.len(),
        forall|k: int|
            0 <= k < segments.len() ==> (#[trigger] segments[k]).remaining()
                <= segments[largest(segments)].remaining(),
        forall|k: int|
            largest(segments) < k < segments.len() ==> (#[trigger] segments[k]).remaining()
                < segments[largest(segments)].remaining(),
    decreases segments.len(),
{
    if segments.len() > 1 {
        let front = segments.drop_last();
        law_largest_has_most_left(front);
        assert forall|k: int| 0 <= k < segments.len() implies (#[trigger] segments[k]).remaining()
            <= segments[largest(segments)].remaining() by {
            if k < front.len() {
                assert(front[k] == segments[k]);
            }
        }
        assert forall|k: int| largest(segments) < k < segments.len() implies (
        #[trigger] segments[k]).remaining() < segments[largest(segments)].remaining() by {
            if k < front.len() {
                assert(front[k] == segments[k]);
            }
        }
    }
}

proof fn lemma_even_start_monotonic(total: int, n: int, i: int, j: int)
    requires
        0 <= i <= j <= n,
        1 <= n <= total,
    ensures
        even_start(total, n, i) <= even_start(total, n, j),
        i < j ==> even_start(total, n, i) < even_start(total, n, j),
        0 <= even_start(total, n, i),
        even_start(total, n, j) <= total,
    decreases j - i,
{
    assert(total / n >= 1) by (nonlinear_arith)
        requires
            1 <= n <= total,
    ;
    if i < n {
        lemma_even_start_step(total, n, i);
    } else {
        lemma_even_start_step(total, n, n - 1);
    }
    if i < j {
        lemma_even_start_step(total, n, j - 1);
        lemma_even_start_monotonic(total, n, i, j - 1);
    }
}

/// The piece of an even split that holds byte `b`.
proof fn lemma_even_owner(total: int, n: int, b: int, m: int) -> (i: int)
    requires
        1 <= n <= total,
        1 <= m <= n,
        0 <= b < even_start(total, n, m),
    ensures
        0 <= i < m,
        even_start(total, n, i) <= b < even_start(total, n, i + 1),
    decreases m,
{
    lemma_even_start_step(total, n, 0);
    if b >= even_start(total, n, m - 1) {
        m - 1
    } else {
        lemma_even_owner(total, n, b, m - 1)
    }
}

proof fn lemma_even_sum(total: int, n: int, m: int)
    requires
        1 <= n <= total <= u64::MAX,
        0 <= m <= n,
    ensures
        sum_length(even_segments(total, n).take(m)) == even_start(total, n, m),
    decreases m,
{
    lemma_even_start_step(total, n, 0);
    if m > 0 {
        let all = even_segments(total, n);
        lemma_even_sum(total, n, m - 1);
        assert(all.take(m).drop_last() =~= all.take(m - 1));
        lemma_even_start_monotonic(total, n, m - 1, m);
    }
}

/// An even split gives every byte of the file to exactly one segment, and no
/// two segments differ in length by more than a byte.
pub proof fn law_even_split_tiles(total: int, n: int)
    requires
        1 <= n <= total <= u64::MAX,
    ensures
        tiles(even_segments(total, n), total),
        forall|i: int|
            0 <= i < n ==> total / n <= (#[trigger] even_segments(total, n)[i]).length() <= total
                / n + 1,
{
    let all = even_segments(total, n);
    assert forall|i: int| 0 <= i < n implies (#[trigger] all[i]).start <= all[i].end < total
        && all[i].start == even_start(total, n, i) && all[i].end == even_start(total, n, i + 1) - 1
        && total / n <= all[i].length() <= total / n + 1 by {
        lemma_even_start_monotonic(total, n, i, i + 1);
        lemma_even_start_step(total, n, i);
    }
    assert forall|i: int, j: int| 0 <= i < n && 0 <= j < n && i != j implies (
    #[trigger] all[i]).end < (#[trigger] all[j]).start || all[j].end < all[i].start by {
        if i < j {
            lemma_even_start_monotonic(total, n, i + 1, j);
        } else {
            lemma_even_start_monotonic(total, n, j + 1, i);
        }
    }
    assert forall|b: int| 0 <= b < total implies #[trigger] is_held(all, b) by {
        lemma_even_start_step(total, n, n - 1);
        let i = lemma_even_owner(total, n, b, n);
        assert(all[i].owns(b));
    }
    lemma_even_sum(total, n, n);
    lemma_even_start_step(total, n, n - 1);
    assert(all.take(n) =~= all);
}

/// When a file is worth splitting at all, no piece of an even split is shorter
/// than the floor.
pub proof fn law_even_split_respects_the_floor(total: int, n: int, min_split: int)
    requires
        0 < total <= u64::MAX,
        0 <= min_split,
        even_pieces(total, n, min_split) > 1,
    ensures
        ({
            let pieces = even_pieces(total, n, min_split);
            forall|i: int|
                0 <= i < pieces ==> (#[trigger] even_segments(total, pieces)[i]).length()
                    >= min_split
        }),
{
    let pieces = even_pieces(total, n, min_split);
    let floor = if min_split < 1 { 1 } else { min_split };
    assert(pieces <= total / floor);
    assert(total / floor <= total && total / pieces >= floor) by (nonlinear_arith)
        requires
            pieces <= total / floor,
            pieces > 1,
            floor >= 1,
            total > 0,
    ;
    law_even_split_tiles(total, pieces);
}

/// Replacing one segment changes the summed length by that segment alone.
pub proof fn lemma_sum_length_update(segments: Seq<SegmentView>, k: int, s: SegmentView)
    requires
        0 <= k < segments.len(),
    ensures
        sum_length(segments.update(k, s)) == sum_length(segments) - segments[k].length()
            + s.length(),
    decreases segments.len(),
{
    let changed = segments.update(k, s);
    if k == segments.len() - 1 {
        assert(changed.drop_last() =~= segments.drop_last());
    } else {
        lemma_sum_length_update(segments.drop_last(), k, s);
        assert(changed.drop_last() =~= segments.drop_last().update(k, s));
    }
}

proof fn lemma_sum_done_update(segments: Seq<SegmentView>, k: int, s: SegmentView)
    requires
        0 <= k < segments.len(),
    ensures
        sum_done(segments.update(k, s)) == sum_done(segments) - segments[k].effective_done()
            + s.effective_done(),
    decreases segments.len(),
{
    let changed = segments.update(k, s);
    if k == segments.len() - 1 {
        assert(changed.drop_last() =~= segments.drop_last());
    } else {
        lemma_sum_done_update(segments.drop_last(), k, s);
        assert(changed.drop_last() =~= segments.drop_last().update(k, s));
    }
}

/// A split divides the work that is left, never the segment as a whole: the
/// boundary stays ahead of the cursor, the two halves meet without gap or
/// overlap, no half has more than a byte less than the other to do, and the
/// work left over both is what it was.
pub proof fn law_split_divides_what_is_left(plan: PlanView, min_split: int)
    requires
        0 <= min_split,
        plan.split_point(min_split) is Some,
    ensures
        ({
            let mid = plan.split_point(min_split)->0;
            let k = largest(plan.segments);
            let victim = plan.segments[k];
            let after = plan.split_at(mid).segments;
            let front = after[k];
            let back = after[plan.segments.len() as int];
            &&& 0 <= k < plan.segments.len()
            &&& after.len() == plan.segments.len() + 1
            &&& victim.cursor() < mid <= victim.end
            &&& front.end >= victim.cursor()
            &&& front.end + 1 == back.start
            &&& back.end == victim.end
            &&& front.start == victim.start
            &&& front.done == victim.done
            &&& front.active == victim.active
            &&& back.done == 0
            &&& front.left() + back.left() == victim.left()
            &&& front.left() <= back.left() <= front.left() + 1
            &&& 2 * min_split <= u64::MAX ==> front.left() >= min_split && back.left()
                >= min_split
            &&& victim.done <= victim.length() ==> front.done <= front.length()
            &&& forall|i: int|
                0 <= i < plan.segments.len() && i != k ==> after[i] == #[trigger] plan.segments[i]
        }),
{
    law_largest_has_most_left(plan.segments);
}

/// Splitting keeps the tiling: after any split every byte still belongs to
/// exactly one segment.
pub proof fn law_split_keeps_the_tiling(plan: PlanView, min_split: int, total: int)
    requires
        0 <= min_split,
        total <= u64::MAX,
        tiles(plan.segments, total),
        plan.split_point(min_split) is Some,
    ensures
        tiles(plan.split_at(plan.split_point(min_split)->0).segments, total),
{
    let mid = plan.split_point(min_split)->0;
    let k = largest(plan.segments);
    let victim = plan.segments[k];
    law_split_divides_what_is_left(plan, min_split);
    let front = SegmentView { end: (mid - 1) as u64, ..victim };
    let back = SegmentView::fresh(plan.next_index, mid as u64, victim.end);
    let kept = plan.segments.update(k, front);
    let after = kept.push(back);
    assert(after == plan.split_at(mid).segments);
    assert forall|b: int| 0 <= b < total implies #[trigger] is_held(after, b) by {
        assert(is_held(plan.segments, b));
        let i = choose|i: int| 0 <= i < plan.segments.len() && (#[trigger] plan.segments[i]).owns(b);
        if i == k {
            if b < mid {
                assert(after[k].owns(b));
            } else {
                assert(after[plan.segments.len() as int].owns(b));
            }
        } else {
            assert(after[i].owns(b));
        }
    }
    lemma_sum_length_update(plan.segments, k, front);
    assert(after.drop_last() =~= kept);
    assert(victim.length() == front.length() + back.length());
}

/// Splitting alone changes no progress, and not the size of the file: a segment
/// that has overrun its range has nothing left to split.
pub proof fn law_split_keeps_the_progress(plan: PlanView, min_split: int)
    requires
        0 <= min_split,
        plan.split_point(min_split) is Some,
    ensures
        sum_done(plan.split_at(plan.split_point(min_split)->0).segments) == sum_done(plan.segments),
        plan.split_at(plan.split_point(min_split)->0).total == plan.total,
{
    let mid = plan.split_point(min_split)->0;
    let k = largest(plan.segments);
    let victim = plan.segments[k];
    law_split_divides_what_is_left(plan, min_split);
    let front = SegmentView { end: (mid - 1) as u64, ..victim };
    let back = SegmentView::fresh(plan.next_index, mid as u64, victim.end);
    let kept = plan.segments.update(k, front);
    lemma_sum_done_update(plan.segments, k, front);
    assert(kept.push(back).drop_last() =~= kept);
}

/// Splitting hands bytes over, it gains and loses none: a byte is some segment's
/// after the split exactly if it was one's before.
pub proof fn law_split_keeps_the_bytes(plan: PlanView, min_split: int, b: int)
    requires
        0 <= min_split,
        plan.split_point(min_split) is Some,
    ensures
        is_held(plan.split_at(plan.split_point(min_split)->0).segments, b) <==> is_held(
            plan.segments,
            b,
        ),
{
    let mid = plan.split_point(min_split)->0;
    let k = largest(plan.segments);
    let n = plan.segments.len() as int;
    law_split_divides_what_is_left(plan, min_split);
    let after = plan.split_at(mid).segments;
    if is_held(plan.segments, b) {
        let i = choose|i: int| 0 <= i < n && (#[trigger] plan.segments[i]).owns(b);
        if i == k && b >= mid {
            assert(after[n].owns(b));
        } else {
            assert(after[i].owns(b));
        }
    }
    if is_held(after, b) {
        let i = choose|i: int| 0 <= i < after.len() && (#[trigger] after[i]).owns(b);
        if i == n {
            assert(plan.segments[k].owns(b));
        } else {
            assert(plan.segments[i].owns(b));
        }
    }
}

proof fn lemma_done_within_length(segments: Seq<SegmentView>)
    ensures
        0 <= sum_done(segments) <= sum_length(segments),
    decreases segments.len(),
{
    if segments.len() > 0 {
        lemma_done_within_length(segments.drop_last());
    }
}

/// Progress never exceeds the file size, however far a worker has overrun its
/// own segment.
pub proof fn law_progress_is_within_the_file(segments: Seq<SegmentView>, total: int)
    requires
        tiles(segments, total),
    ensures
        0 <= sum_done(segments) <= total,
{
    lemma_done_within_length(segments);
}

proof fn lemma_complete_sums(segments: Seq<SegmentView>, total: int)
    requires
        total <= u64::MAX,
        forall|i: int|
            0 <= i < segments.len() ==> (#[trigger] segments[i]).start <= segments[i].end < total,
    ensures
        sum_done(segments) == sum_length(segments) <==> forall|i: int|
            0 <= i < segments.len() ==> (#[trigger] segments[i]).is_complete(),
    decreases segments.len(),
{
    if segments.len() > 0 {
        let front = segments.drop_last();
        assert forall|i: int| 0 <= i < front.len() implies (#[trigger] front[i]).start
            <= front[i].end < total by {
            assert(front[i] == segments[i]);
        }
        lemma_complete_sums(front, total);
        lemma_done_within_length(front);
        assert(segments.last() == segments[segments.len() - 1]);
        if forall|i: int| 0 <= i < segments.len() ==> (#[trigger] segments[i]).is_complete() {
            assert forall|i: int| 0 <= i < front.len() implies (
            #[trigger] front[i]).is_complete() by {
                assert(front[i] == segments[i]);
            }
        }
        if sum_done(segments) == sum_length(segments) {
            assert forall|i: int| 0 <= i < segments.len() implies (
            #[trigger] segments[i]).is_complete() by {
                if i < front.len() {
                    assert(front[i] == segments[i]);
                }
            }
        }
    }
}

/// A plan that tiles the file is complete exactly when its progress equals the
/// file size.
pub proof fn law_complete_means_every_byte(plan: PlanView, total: int)
    requires
        total <= u64::MAX,
        tiles(plan.segments, total),
    ensures
        plan.is_complete() <==> sum_done(plan.segments) == total,
{
    lemma_complete_sums(plan.segments, total);
}

proof fn lemma_max_index_bounds(snapshots: Seq<SegmentSnapshot>)
    ensures
        forall|i: int|
            0 <= i < snapshots.len() ==> (#[trigger] snapshots[i]).index <= max_index(snapshots),
    decreases snapshots.len(),
{
    if snapshots.len() > 0 {
        let front = snapshots.drop_last();
        lemma_max_index_bounds(front);
        assert forall|i: int| 0 <= i < snapshots.len() implies (#[trigger] snapshots[i]).index
            <= max_index(snapshots) by {
            if i < front.len() {
                assert(front[i] == snapshots[i]);
            }
        }
    }
}

/// A plan rebuilt from snapshots with distinct indices hands out new ones.
proof fn lemma_restored_indices(snapshots: Seq<SegmentSnapshot>, total: Option<u64>)
    requires
        max_index(snapshots) < u32::MAX,
    ensures
        distinct(snapshots) ==> indexed(PlanView::restored(snapshots, total)),
{
    let plan = PlanView::restored(snapshots, total);
    lemma_max_index_bounds(snapshots);
    assert forall|i: int| 0 <= i < plan.segments.len() implies (#[trigger] plan.segments[i]).index
        < plan.next_index by {
        assert(snapshots[i].index <= max_index(snapshots));
    }
    if distinct(snapshots) {
        assert forall|i: int, j: int| 0 <= i < j < plan.segments.len() implies (
        #[trigger] plan.segments[i]).index != (#[trigger] plan.segments[j]).index by {
            assert(snapshots[i].index != snapshots[j].index);
        }
    }
}

/// A plan rebuilt from its own snapshots has the same segments with the same
/// progress, all idle, so nothing fetched is lost and no byte changes owner.
pub proof fn law_resume_round_trips(plan: PlanView)
    requires
        max_index(plan.snapshots()) < u32::MAX,
    ensures
        ({
            let resumed = PlanView::restored(plan.snapshots(), plan.total);
            &&& resumed.total == plan.total
            &&& resumed.segments.len() == plan.segments.len()
            &&& forall|i: int|
                0 <= i < plan.segments.len() ==> #[trigger] resumed.segments[i] == (SegmentView {
                    active: false,
                    ..plan.segments[i]
                })
            &&& resumed.snapshots() == plan.snapshots()
            &&& sum_done(resumed.segments) == sum_done(plan.segments)
            &&& resumed.is_complete() == plan.is_complete()
            &&& forall|t: int| tiles(plan.segments, t) ==> #[trigger] tiles(resumed.segments, t)
            &&& forall|i: int|
                0 <= i < resumed.segments.len() ==> (#[trigger] resumed.segments[i]).index
                    < resumed.next_index
        }),
{
    let resumed = PlanView::restored(plan.snapshots(), plan.total);
    assert forall|i: int| 0 <= i < plan.segments.len() implies #[trigger] resumed.segments[i] == (
    SegmentView { active: false, ..plan.segments[i] }) by {
        assert(plan.snapshots()[i] == plan.segments[i].snapshot());
    }
    assert(resumed.snapshots() =~= plan.snapshots());
    lemma_same_sums(plan.segments, resumed.segments);
    assert(resumed.is_complete() == plan.is_complete()) by {
        if plan.is_complete() {
            assert forall|i: int| 0 <= i < resumed.segments.len() implies (
            #[trigger] resumed.segments[i]).is_complete() by {
                assert(plan.segments[i].is_complete());
            }
        }
        if resumed.is_complete() {
            assert forall|i: int| 0 <= i < plan.segments.len() implies (
            #[trigger] plan.segments[i]).is_complete() by {
                assert(resumed.segments[i].is_complete());
            }
        }
    }
    assert forall|t: int| tiles(plan.segments, t) implies #[trigger] tiles(resumed.segments, t) by {
        assert forall|b: int| 0 <= b < t implies #[trigger] is_held(resumed.segments, b) by {
            assert(is_held(plan.segments, b));
            let i = choose|i: int|
                0 <= i < plan.segments.len() && (#[trigger] plan.segments[i]).owns(b);
            assert(resumed.segments[i].owns(b));
        }
    }
    lemma_max_index_bounds(plan.snapshots());
    assert forall|i: int| 0 <= i < resumed.segments.len() implies (
    #[trigger] resumed.segments[i]).index < resumed.next_index by {
        assert(plan.snapshots()[i].index <= max_index(plan.snapshots()));
    }
}

proof fn lemma_same_sums(a: Seq<SegmentView>, b: Seq<SegmentView>)
    requires
        a.len() == b.len(),
        forall|i: int|
            0 <= i < a.len() ==> #[trigger] b[i] == (SegmentView { active: false, ..a[i] }),
    ensures
        sum_done(a) == sum_done(b),
        sum_length(a) == sum_length(b),
    decreases a.len(),
{
    if a.len() > 0 {
        assert forall|i: int| 0 <= i < a.len() - 1 implies #[trigger] b.drop_last()[i] == (
        SegmentView { active: false, ..a.drop_last()[i] }) by {
            assert(b[i] == b.drop_last()[i]);
        }
        lemma_same_sums(a.drop_last(), b.drop_last());
        assert(b[a.len() - 1] == b.last());
    }
}

/// Indices stay unique through every split, until the counter has run through
/// all its values.
pub proof fn law_indices_stay_unique(plan: PlanView, min_split: int)
    requires
        0 <= min_split,
        indexed(plan),
        plan.next_index < u32::MAX,
        plan.split_point(min_split) is Some,
    ensures
        indexed(plan.split_at(plan.split_point(min_split)->0)),
{
    law_split_divides_what_is_left(plan, min_split);
    let after = plan.split_at(plan.split_point(min_split)->0);
    assert forall|i: int| 0 <= i < plan.segments.len() implies (#[trigger] after.segments[i]).index
        == plan.segments[i].index by {}
}

/// Indices stay unique when a plan is saved and resumed: its snapshots have
/// distinct ones.
pub proof fn law_saved_indices_are_distinct(plan: PlanView)
    requires
        indexed(plan),
    ensures
        distinct(plan.snapshots()),
{
    assert forall|i: int, j: int| 0 <= i < j < plan.snapshots().len() implies (
    #[trigger] plan.snapshots()[i]).index != (#[trigger] plan.snapshots()[j]).index by {
        assert(plan.segments[i].index != plan.segments[j].index);
    }
}

/// A segment's start is fixed, and its end only moves down, whatever is called
/// on it: of the calls on a segment only the one that ends it where its body
/// ended moves its end at all. Over any number of calls the same holds.
pub proof fn law_a_segment_never_grows(
    s: SegmentView,
    done: u64,
    active: bool,
    later: SegmentView,
    last: SegmentView,
)
    ensures
        s.lasts_as(s),
        s.lasts_as(SegmentView { done, ..s }),
        s.lasts_as(SegmentView { active, ..s }),
        0 < s.cursor() <= s.end ==> s.lasts_as(s.closed()) && s.closed().end < s.end,
        s.lasts_as(later) && later.lasts_as(last) ==> s.lasts_as(last),
{
}

/// Splitting and claiming keep every segment at its position and its start; of
/// the ends only that of the segment that is split moves, and it moves down.
pub proof fn law_only_a_split_moves_an_end(plan: PlanView, min_split: int, at: int, i: int)
    requires
        0 <= min_split,
        0 <= at < plan.segments.len(),
        0 <= i < plan.segments.len(),
    ensures
        plan.split_point(min_split) is Some ==> ({
            let after = plan.split_at(plan.split_point(min_split)->0).segments;
            &&& i < after.len()
            &&& plan.segments[i].lasts_as(after[i])
            &&& after[i].end != plan.segments[i].end <==> i == largest(plan.segments)
        }),
        ({
            let claimed = plan.segments.update(
                at,
                SegmentView { active: true, ..plan.segments[at] },
            );
            &&& plan.segments[i].lasts_as(claimed[i])
            &&& claimed[i].end == plan.segments[i].end
        }),
{
    if plan.split_point(min_split) is Some {
        law_split_divides_what_is_left(plan, min_split);
    }
}

/// A call on a plan, or on one of the segments it holds.
pub enum PlanCall {
    /// Split what has the most work left, by this floor.
    Split { min_split: u64 },
    /// Set the progress of the segment at this position, or add to it.
    Report { at: int, done: u64 },
    /// Claim or release the segment at this position.
    Mark { at: int, active: bool },
    /// End the segment at this position where its body ended.
    Close { at: int },
}

impl PlanView {
    /// The plan with one segment replaced; the plan itself where there is none.
    pub open spec fn with_segment(self, at: int, s: SegmentView) -> PlanView {
        if 0 <= at < self.segments.len() {
            PlanView { segments: self.segments.update(at, s), ..self }
        } else {
            self
        }
    }

    /// The plan after a call.
    pub open spec fn called(self, call: PlanCall) -> PlanView {
        match call {
            PlanCall::Split { min_split } => match self.split_point(min_split as int) {
                Some(mid) => self.split_at(mid),
                None => self,
            },
            PlanCall::Report { at, done } => self.with_segment(
                at,
                SegmentView { done, ..self.segments[at] },
            ),
            PlanCall::Mark { at, active } => self.with_segment(
                at,
                SegmentView { active, ..self.segments[at] },
            ),
            PlanCall::Close { at } => if 0 < self.segments[at].cursor() <= self.segments[at].end {
                self.with_segment(at, self.segments[at].closed())
            } else {
                self
            },
        }
    }

    /// The plan after several calls, one after the other.
    pub open spec fn after(self, calls: Seq<PlanCall>) -> PlanView
        decreases calls.len(),
    {
        if calls.len() == 0 {
            self
        } else {
            self.after(calls.drop_last()).called(calls.last())
        }
    }

    /// Whether a call splits or closes the segment at this position.
    pub open spec fn cuts(self, call: PlanCall, i: int) -> bool {
        match call {
            PlanCall::Split { min_split } => self.split_point(min_split as int) is Some && i == largest(
                self.segments,
            ),
            PlanCall::Close { at } => i == at,
            _ => false,
        }
    }
}

/// Whatever is called on a plan and its segments, in whatever order and however
/// often: a segment keeps its position, its index and its start, and its end only
/// moves down. It moves only if one of the calls split the segment or ended it where
/// its body ended.
pub proof fn law_no_calls_make_a_segment_grow(plan: PlanView, calls: Seq<PlanCall>, i: int)
    requires
        0 <= i < plan.segments.len(),
    ensures
        plan.segments.len() <= plan.after(calls).segments.len(),
        plan.segments[i].lasts_as(plan.after(calls).segments[i]),
        plan.after(calls).segments[i].end != plan.segments[i].end ==> exists|k: int|
            0 <= k < calls.len() && #[trigger] plan.after(calls.take(k)).cuts(calls[k], i),
    decreases calls.len(),
{
    if calls.len() > 0 {
        let front = calls.drop_last();
        law_no_calls_make_a_segment_grow(plan, front, i);
        let before = plan.after(front);
        let call = calls.last();
        let n = front.len() as int;
        assert(calls.take(n) =~= front);
        if let PlanCall::Split { min_split } = call {
            law_only_a_split_moves_an_end(before, min_split as int, i, i);
            if before.split_point(min_split as int) is Some {
                law_split_divides_what_is_left(before, min_split as int);
            }
        }
        if before.called(call).segments[i].end != before.segments[i].end {
            assert(plan.after(calls.take(n)).cuts(calls[n], i));
        } else if before.segments[i].end != plan.segments[i].end {
            let k = choose|k: int|
                0 <= k < front.len() && #[trigger] plan.after(front.take(k)).cuts(front[k], i);
            assert(front.take(k) =~= calls.take(k));
            assert(plan.after(calls.take(k)).cuts(calls[k], i));
        }
    }
}

/// A segment in numbers: it goes on where its start and its progress say, it has
/// left what lies between there and its end, and it is complete when that is
/// nothing.
pub proof fn law_a_segment_in_numbers(s: SegmentView)
    requires
        s.end < u64::MAX,
    ensures
        s.start + s.done <= s.end ==> s.cursor() == s.start + s.done && s.remaining() == s.end - (
        s.start + s.done) + 1,
        s.start + s.done > s.end ==> s.remaining() == 0,
        s.is_complete() <==> s.start + s.done > s.end,
        s.start <= s.end ==> s.length() == s.end - s.start + 1,
        s.start <= s.end ==> s.effective_done() == (if s.start + s.done <= s.end {
            s.done as int
        } else {
            s.end - s.start + 1
        }),
{
}

/// A file that is large enough is cut into as many pieces as were asked for; of a
/// smaller one every piece that the floor allows is made.
pub proof fn law_a_file_is_cut_as_asked(total: int, n: int, min_split: int)
    requires
        0 < total,
        1 <= n,
        1 <= min_split,
    ensures
        1 <= even_pieces(total, n, min_split) <= n,
        n * min_split <= total ==> even_pieces(total, n, min_split) == n,
        even_pieces(total, n, min_split) < n ==> (even_pieces(total, n, min_split) + 1) * min_split
            > total,
        even_segments(total, even_pieces(total, n, min_split)).len() == even_pieces(
            total,
            n,
            min_split,
        ),
{
    let q = total / min_split;
    assert(n * min_split <= total ==> q >= n) by (nonlinear_arith)
        requires
            q == total / min_split,
            min_split >= 1,
    ;
    assert((q + 1) * min_split > total) by (nonlinear_arith)
        requires
            q == total / min_split,
            min_split >= 1,
    ;
    assert(q < 1 ==> 2 * min_split > total) by (nonlinear_arith)
        requires
            (q + 1) * min_split > total,
            min_split >= 1,
    ;
}

/// A segment with enough work left to share is never passed over: while there is
/// one, a split is made.
pub proof fn law_what_is_worth_splitting_is_split(plan: PlanView, min_split: int, k: int)
    requires
        0 <= min_split,
        2 * min_split <= u64::MAX,
        0 <= k < plan.segments.len(),
        forall|i: int| 0 <= i < plan.segments.len() ==> (#[trigger] plan.segments[i]).end < u64::MAX,
        plan.segments[k].end - (plan.segments[k].start + plan.segments[k].done) + 1 >= 2 * min_split,
        plan.segments[k].end - (plan.segments[k].start + plan.segments[k].done) + 1 >= 2,
    ensures
        plan.split_point(min_split) is Some,
{
    law_largest_has_most_left(plan.segments);
    let victim = plan.segments[largest(plan.segments)];
    assert(victim.end < u64::MAX);
    assert(plan.segments[k].remaining() <= victim.remaining());
}

/// A split is made only of a segment that has enough left for both halves.
pub proof fn law_a_split_is_worth_it(plan: PlanView, min_split: int)
    requires
        0 <= min_split,
        2 * min_split <= u64::MAX,
        plan.split_point(min_split) is Some,
    ensures
        ({
            let victim = plan.segments[largest(plan.segments)];
            victim.end - (victim.start + victim.done) + 1 >= 2 * min_split
        }),
{
    law_largest_has_most_left(plan.segments);
}

/// A plan goes on from what was saved of it: every saved range with its progress,
/// nobody on it yet, and the size as it is known now.
pub proof fn law_a_restored_plan_has_what_was_saved(
    snapshots: Seq<SegmentSnapshot>,
    total: Option<u64>,
    i: int,
)
    requires
        0 <= i < snapshots.len(),
    ensures
        ({
            let plan = PlanView::restored(snapshots, total);
            &&& plan.total == total
            &&& plan.segments.len() == snapshots.len()
            &&& plan.segments[i].start == snapshots[i].start
            &&& plan.segments[i].end == snapshots[i].end
            &&& plan.segments[i].done == snapshots[i].done
            &&& plan.segments[i].index == snapshots[i].index
            &&& !plan.segments[i].active
        }),
{
}

/// An empty file has nothing to fetch. A single stream begins at the first byte and
/// ends at the last, or nowhere that is known.
pub proof fn law_a_single_stream_is_the_whole_file(total: u64, n: int, min_split: int)
    ensures
        PlanView::even(0, n, min_split).segments.len() == 0,
        PlanView::even(0, n, min_split).is_complete(),
        PlanView::even(total, n, min_split).total == Some(total),
        PlanView::single(Some(total)).segments.len() == 1,
        PlanView::single(Some(total)).segments[0].start == 0,
        PlanView::single(Some(total)).segments[0].done == 0,
        total > 0 ==> PlanView::single(Some(total)).segments[0].end == total - 1,
        PlanView::single(None).segments[0].end == u64::MAX,
        PlanView::single(Some(total)).total == Some(total),
{
}

/// A segment is for a worker to take exactly if it has bytes missing and no worker.
pub proof fn law_only_what_is_missing_is_taken(s: SegmentView)
    requires
        s.end < u64::MAX,
    ensures
        is_idle(s) <==> s.start + s.done <= s.end && !s.active,
{
    law_a_segment_in_numbers(s);
}

} // verus!
