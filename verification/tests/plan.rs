use fdm::plan::{Plan, Segment};

const MIN: u64 = 1024;

#[test]
fn even_split_covers_every_byte_with_no_overlap() {
    let plan = Plan::split_even(1_000_003, 7, MIN);
    let segs = plan.segments();
    assert_eq!(segs.len(), 7);

    assert_eq!(segs[0].start(), 0);
    assert_eq!(segs.last().unwrap().end(), 1_000_002);

    for pair in segs.windows(2) {
        // Contiguous: each segment starts exactly one byte after the last ends.
        assert_eq!(pair[1].start(), pair[0].end() + 1);
    }
    let covered: u64 = segs.iter().map(|s| s.len()).sum();
    assert_eq!(covered, 1_000_003);
}

#[test]
fn small_file_is_not_split_into_uselessly_tiny_pieces() {
    // 3 KiB with a 1 KiB floor can support at most 3 segments, not 16.
    let plan = Plan::split_even(3 * 1024, 16, MIN);
    assert_eq!(plan.count(), 3);
}

#[test]
fn tiny_file_gets_exactly_one_segment() {
    let plan = Plan::split_even(500, 16, MIN);
    assert_eq!(plan.count(), 1);
    assert_eq!(plan.segments()[0].len(), 500);
}

#[test]
fn splitting_largest_halves_the_remaining_work() {
    let mut plan = Plan::split_even(100_000, 1, MIN);
    plan.segment_mut(0).set_done(20_000); // cursor at 20_000, 80_000 left

    let fresh = plan.split_largest(MIN).expect("should split");

    assert_eq!(plan.count(), 2);
    let (original, fresh) = (&plan.segments()[0], &plan.segments()[fresh]);
    assert_eq!(fresh.start(), 60_000);
    assert_eq!(fresh.end(), 99_999);
    assert_eq!(original.end(), 59_999);
    // No byte is claimed by both halves.
    assert_eq!(original.end() + 1, fresh.start());
}

#[test]
fn refuses_to_split_below_the_floor() {
    let mut plan = Plan::split_even(1500, 1, MIN);
    // 1500 bytes remaining is under 2 * 1024, so a split would create a
    // sub-floor piece.
    assert!(plan.split_largest(MIN).is_none());
    assert_eq!(plan.count(), 1);
}

#[test]
fn a_split_never_moves_the_boundary_behind_the_cursor() {
    // A split divides the work that is *left*, never the segment as a whole.
    for done in [0u64, 1, 40_000, 70_000, 90_000, 98_975] {
        let mut plan = Plan::split_even(100_000, 1, MIN);
        plan.segment_mut(0).set_done(done);

        let before = plan.segments()[0].cursor();
        if let Some(fresh) = plan.split_largest(MIN) {
            let (original, fresh) = (&plan.segments()[0], &plan.segments()[fresh]);
            assert!(
                original.end() >= before,
                "done={done}: split moved end to {} behind cursor {before}",
                original.end()
            );
            assert_eq!(original.end() + 1, fresh.start(), "done={done}: gap or overlap");
            assert!(
                original.done() <= original.len(),
                "done={done}: a split alone must never make done exceed len"
            );
        }
    }
}

#[test]
fn progress_is_not_double_counted_when_a_worker_overruns_a_shrunk_segment() {
    // The one case where `done` can exceed `len`: a worker lands a chunk it had
    // already read when the segment was cut short.
    let mut plan = Plan::split_even(100_000, 1, MIN);
    plan.segment_mut(0).set_done(90_000);

    let fresh = plan.split_largest(MIN).expect("should split");
    assert_eq!(plan.segments()[0].end(), 94_999);
    assert_eq!(plan.segments()[fresh].start(), 95_000);

    // Worker lands a 8 KB chunk it had already read, overrunning the new end.
    plan.segment_mut(0).add_done(8_000);
    let original = &plan.segments()[0];
    assert!(original.done() > original.len());

    assert_eq!(original.effective_done(), original.len());
    assert_eq!(plan.segments()[fresh].done(), 0, "the new half re-fetches its range");
    assert_eq!(plan.total_done(), original.len());
    assert!(
        plan.total_done() <= 100_000,
        "progress must never exceed the file size"
    );
}

#[test]
fn segment_is_complete_when_cursor_passes_end() {
    let mut seg = Segment::new(0, 0, 999);
    assert!(!seg.is_complete());
    seg.set_done(1000);
    assert!(seg.is_complete());
    assert_eq!(seg.remaining(), 0);
}

#[test]
fn an_overrun_segment_reports_complete_not_underflowed() {
    let mut plan = Plan::split_even(100_000, 1, MIN);
    plan.segment_mut(0).set_done(90_000);
    let _ = plan.split_largest(MIN).expect("should split");

    // `remaining` must saturate at zero rather than wrap around to 18
    // quintillion.
    plan.segment_mut(0).add_done(8_000);
    let original = &plan.segments()[0];
    assert!(original.cursor() > original.end());
    assert_eq!(original.remaining(), 0);
    assert!(original.is_complete());
}

#[test]
fn resume_round_trips_through_snapshots() {
    let mut plan = Plan::split_even(50_000, 4, MIN);
    plan.segment_mut(1).set_done(1234);
    let snaps = plan.snapshots();

    let resumed = Plan::from_snapshots(&snaps, Some(50_000));
    assert_eq!(resumed.count(), 4);
    assert_eq!(resumed.segments()[1].done(), 1234);
    assert_eq!(resumed.total_done(), 1234);
}

#[test]
fn activation_is_exclusive() {
    let mut seg = Segment::new(0, 0, 99);
    assert!(seg.try_activate());
    assert!(!seg.try_activate(), "second claim must fail");
    seg.deactivate();
    assert!(seg.try_activate());
}

#[test]
fn unknown_size_yields_one_open_ended_segment() {
    let plan = Plan::single(None);
    assert_eq!(plan.count(), 1);
    assert_eq!(plan.segments()[0].end(), u64::MAX);
    assert!(plan.total().is_none());
}

#[test]
fn an_open_ended_segment_counts_without_overflow() {
    let mut plan = Plan::single(None);
    assert_eq!(plan.segments()[0].remaining(), u64::MAX);
    plan.segment_mut(0).set_done(10);
    assert_eq!(plan.segments()[0].remaining(), u64::MAX - 9);
    plan.segment_mut(0).close_at_cursor();
    assert!(plan.segments()[0].is_complete());
    assert_eq!(plan.total_done(), 10);
}

#[test]
fn idle_work_is_claimed_once() {
    let mut plan = Plan::split_even(10_000, 2, MIN);
    assert_eq!(plan.claim_idle(), Some(0));
    assert_eq!(plan.claim_idle(), Some(1));
    assert_eq!(plan.claim_idle(), None);
    assert_eq!(plan.active_count(), 2);
    plan.segment_mut(0).deactivate();
    plan.segment_mut(0).set_done(5_000);
    assert_eq!(plan.claim_idle(), None, "a finished segment is no work");
    plan.segment_mut(1).set_done(5_000);
    assert!(plan.is_complete());
}

#[test]
fn a_split_makes_a_fresh_index_and_takes_from_the_largest() {
    let mut plan = Plan::split_even(300_000, 3, MIN);
    plan.segment_mut(0).set_done(50_000);
    plan.segment_mut(1).set_done(10_000);
    plan.segment_mut(2).set_done(60_000);
    for at in 0..3 {
        assert!(plan.segment_mut(at).try_activate());
    }
    let fresh = plan.split_largest(MIN).expect("should split");
    assert_eq!(plan.segments()[fresh].index(), 3);
    assert_eq!(plan.segments()[fresh].end(), 199_999);
    assert_eq!(plan.segments()[fresh].start(), plan.segments()[1].end() + 1);
    let covered: u64 = plan.segments().iter().map(|s| s.len()).sum();
    assert_eq!(covered, 300_000);
}

#[test]
fn a_split_never_repeats_an_index_or_moves_a_start() {
    let mut plan = Plan::split_even(1000, 4, 10);
    let mut before: Vec<(u32, u64, u64)> =
        plan.segments().iter().map(|s| (s.index(), s.start(), s.end())).collect();
    while plan.split_largest(10).is_some() {
        let after: Vec<(u32, u64, u64)> =
            plan.segments().iter().map(|s| (s.index(), s.start(), s.end())).collect();
        let mut indices: Vec<u32> = after.iter().map(|s| s.0).collect();
        indices.sort_unstable();
        indices.dedup();
        assert_eq!(indices.len(), after.len());
        let moved: Vec<usize> = (0..before.len()).filter(|i| before[*i].2 != after[*i].2).collect();
        assert_eq!(moved.len(), 1);
        for i in 0..before.len() {
            assert_eq!((before[i].0, before[i].1), (after[i].0, after[i].1));
            assert!(after[i].2 <= before[i].2);
        }
        before = after;
    }
    assert!(before.len() > 4);
}
