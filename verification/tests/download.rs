use fdm::categorize::Category;
use fdm::config::EngineConfig;
use fdm::download::{
    backoff, checkpoint_is_due, choose_part_path, choose_start, destination_dir, finalize, interruption_error,
    judge_response, must_restart_sequentially, segment_begin, segment_end, segment_request,
    verdict, CancelToken, ChunkStep, Interruption, Pool, SegmentRequest, SegmentStep, Transfer,
};
use fdm::error::{Error, HttpFault, IoKind};
use fdm::link::Link;
use fdm::naming::FilePath;
use fdm::plan::{Plan, Segment};
use fdm::probe::RemoteInfo;
use fdm::state::DownloadState;
use reqwest::header::{HeaderMap, CONTENT_RANGE};

fn info(size: Option<u64>, ranges: bool) -> RemoteInfo {
    RemoteInfo {
        final_url: Link::parse("https://example.com/f.bin").unwrap(),
        total_size: size,
        supports_ranges: ranges,
        validator: Some("\"v\"".into()),
        validator_is_etag: true,
        mime: None,
        filename: "f.bin".into(),
    }
}

fn cfg() -> EngineConfig {
    let mut c = EngineConfig::new("/root", "/tmp");
    c.max_connections = 4;
    c.min_split_size = 1000;
    c
}

#[test]
fn a_fresh_start_divides_the_file() {
    let s = choose_start(&cfg(), "https://example.com/f.bin", &info(Some(100_000), true), true, &None, false);
    assert_eq!(s.plan.count(), 4);
    assert!(!s.resumed);
    assert!(s.discard);
}

#[test]
fn saved_progress_is_adopted_only_with_its_bytes() {
    let remote = info(Some(100_000), true);
    let mut plan = Plan::split_even(100_000, 2, 1000);
    plan.segment_mut(0).set_done(123);
    let url = "https://example.com/f.bin";
    let saved = Some(DownloadState::new(url, &remote, &FilePath::new("/d", "f.bin"), plan.snapshots()));
    let with = choose_start(&cfg(), url, &remote, true, &saved, true);
    assert!(with.resumed && !with.discard);
    assert_eq!(with.plan.total_done(), 123);
    let without = choose_start(&cfg(), url, &remote, true, &saved, false);
    assert!(!without.resumed && without.discard);
    let sequential = choose_start(&cfg(), url, &remote, false, &saved, true);
    assert_eq!(sequential.plan.count(), 1);
    assert!(!sequential.resumed);
}

#[test]
fn a_segment_asks_for_exactly_what_is_left() {
    let mut seg = Segment::new(3, 1000, 1999);
    seg.set_done(10);
    match segment_request(&seg, true, &Some("\"v\"".to_string())) {
        SegmentRequest::Send { accept_encoding, range, if_range } => {
            assert_eq!(accept_encoding, "identity");
            assert_eq!(range.as_deref(), Some("bytes=1010-1999"));
            assert_eq!(if_range.as_deref(), Some("\"v\""));
        }
        _ => panic!("there is something to ask for"),
    }
    assert!(matches!(segment_request(&seg, false, &None), SegmentRequest::Refuse(_)));
    seg.set_done(1000);
    assert!(matches!(segment_request(&seg, true, &None), SegmentRequest::Nothing));
    let whole = Segment::new(0, 0, 9);
    assert!(matches!(
        segment_request(&whole, false, &None),
        SegmentRequest::Send { accept_encoding, range: None, if_range: None }
            if accept_encoding == "identity"
    ));
}

#[test]
fn a_full_body_is_never_written_at_an_offset() {
    let none = HeaderMap::new();
    assert_eq!(judge_response(200, &none, 10, true), Err(Error::RangeLost { status: 200 }));
    assert!(must_restart_sequentially(&Error::RangeLost { status: 200 }));
    assert!(!must_restart_sequentially(&Error::Status(500)));
    assert_eq!(
        judge_response(416, &none, 10, true),
        Err(Error::RangeNotSatisfiable { offset: 10 })
    );
    assert_eq!(judge_response(503, &none, 10, true), Err(Error::Status(503)));
    assert_eq!(judge_response(200, &none, 0, false), Ok(()));
    assert_eq!(judge_response(404, &none, 0, false), Err(Error::Status(404)));

    let mut h = HeaderMap::new();
    h.insert(CONTENT_RANGE, "bytes 10-19/100".parse().unwrap());
    assert_eq!(judge_response(206, &h, 10, true), Ok(()));
    let err = judge_response(206, &h, 11, true).unwrap_err();
    assert_eq!(err.message(), "server returned range starting at 10, asked for 11");
    assert_eq!(judge_response(206, &none, 11, true), Ok(()));
}

#[test]
fn a_transfer_stops_at_the_segments_end() {
    let mut seg = Segment::new(0, 100, 109);
    let mut t = Transfer::new(100, 4);
    assert_eq!(t.accept(b"abc", seg.end()), ChunkStep::More);
    assert_eq!(t.accept(b"de", seg.end()), ChunkStep::FlushThenMore);
    assert_eq!(t.pending().map(|(at, b)| (at, b.clone())), Some((100, b"abcde".to_vec())));
    t.written(&mut seg);
    assert_eq!(seg.cursor(), 105);
    assert!(t.pending().is_none());
    // Ten more bytes arrive, of which five belong here.
    assert_eq!(t.accept(b"fghijKLMNO", seg.end()), ChunkStep::Last);
    assert_eq!(t.pending().map(|(at, b)| (at, b.clone())), Some((105, b"fghij".to_vec())));
    t.written(&mut seg);
    assert!(seg.is_complete());
    assert_eq!(t.accept(b"x", seg.end()), ChunkStep::Last);
    assert!(t.pending().is_none());
}

#[test]
fn waiting_doubles_up_to_ten_seconds() {
    let waits: Vec<u64> = (0..9).map(backoff).collect();
    assert_eq!(waits, vec![200, 400, 800, 1600, 3200, 6400, 10000, 10000, 10000]);
}

#[test]
fn a_worker_retries_what_is_transient_and_no_more() {
    let mut seg = Segment::new(2, 0, 99);
    let mut attempt = 0;
    assert!(matches!(segment_begin(&seg, true), SegmentStep::Fail(Error::Cancelled)));
    assert!(matches!(segment_begin(&seg, false), SegmentStep::Stream));
    seg.set_done(40);
    // A dropped connection: asked for again, from the new cursor.
    assert!(matches!(
        segment_end(&mut seg, &mut attempt, Ok(()), 2, true, false),
        SegmentStep::Wait { delay_ms: 400 }
    ));
    assert_eq!((attempt, seg.done()), (1, 40));
    // Without ranges a retry starts over.
    assert!(matches!(
        segment_end(&mut seg, &mut attempt, Err(Error::Status(503)), 2, false, false),
        SegmentStep::Wait { .. }
    ));
    assert_eq!((attempt, seg.done()), (2, 0));
    match segment_end(&mut seg, &mut attempt, Ok(()), 2, true, false) {
        SegmentStep::Fail(Error::RetriesExhausted(m)) => {
            assert_eq!(m, "segment 2 stalled at offset 0 with 100 bytes left");
        }
        _ => panic!("the budget is spent"),
    }
    let mut fresh = 0;
    assert!(matches!(
        segment_end(&mut seg, &mut fresh, Err(Error::Status(404)), 2, true, false),
        SegmentStep::Fail(Error::Status(404))
    ));
}

#[test]
fn the_end_of_an_unsized_body_is_the_end_of_the_file() {
    let mut plan = Plan::single(None);
    plan.segment_mut(0).set_done(500);
    let mut attempt = 0;
    assert!(matches!(
        segment_end(plan.segment_mut(0), &mut attempt, Ok(()), 3, false, true),
        SegmentStep::Done
    ));
    assert!(plan.is_complete());
    let done = finalize(&cfg(), &plan, Category::Other, false, b"%PDF-1.7");
    assert_eq!(done.bytes, 500);
    assert!(done.truncate);
    assert_eq!(done.category, Category::Documents);
    let moved = done.moved.expect("a sniffed file moves to its folder");
    assert_eq!(moved.base, "/root");
    assert_eq!(moved.folder, Some(Category::Documents));
    let kept = finalize(&cfg(), &plan, Category::Other, true, b"%PDF-1.7");
    assert!(kept.moved.is_none());
}

#[test]
fn a_free_worker_takes_half_of_what_is_left() {
    let plan = Plan::split_even(100_000, 1, 1000);
    let mut pool = Pool::new(plan, true, 2, 1000);
    assert_eq!(pool.launch(), vec![0]);
    pool.segment_mut(0).set_done(100_000);
    assert_eq!(pool.finished(0, Ok(())), Vec::<usize>::new());
    assert!(pool.is_drained());
    assert_eq!(verdict(&pool), Ok(()));
}

#[test]
fn a_fatal_error_stops_the_pool_and_is_reported() {
    let plan = Plan::split_even(100_000, 2, 1000);
    let mut pool = Pool::new(plan, true, 2, 1000);
    assert_eq!(pool.launch(), vec![0, 1]);
    assert_eq!(pool.finished(0, Err(Error::Status(403))), Vec::<usize>::new());
    assert!(pool.is_stopping());
    assert!(!pool.is_drained());
    assert_eq!(pool.finished(1, Err(Error::Cancelled)), Vec::<usize>::new());
    assert!(pool.is_drained());
    assert_eq!(verdict(&pool), Err(Error::Status(403)));
}

#[test]
fn unfinished_work_is_no_success() {
    let plan = Plan::split_even(1000, 1, 1000);
    let pool = Pool::new(plan, true, 1, 1000);
    assert_eq!(
        verdict(&pool).unwrap_err().message(),
        "workers finished with 0 of Some(1000) bytes written"
    );
}

#[test]
fn an_interrupted_body_says_why() {
    assert_eq!(interruption_error(Interruption::Stopped), Error::Cancelled);
    match interruption_error(Interruption::TimedOut) {
        Error::Io(e) => assert_eq!(e.kind, IoKind::TimedOut),
        other => panic!("{other:?}"),
    }
    let e = HttpFault { timeout: false, connect: false, request: false, body: true, message: "x".into() };
    assert!(interruption_error(Interruption::Failed(e)).is_retryable());
}

#[test]
fn files_go_where_they_are_told_or_by_type() {
    let c = cfg();
    let told = destination_dir(&c, &Some("/mine".to_string()), Category::Video);
    assert_eq!((told.base.as_str(), told.folder), ("/mine", None));
    let sorted = destination_dir(&c, &None, Category::Video);
    assert_eq!((sorted.base.as_str(), sorted.folder), ("/root", Some(Category::Video)));
    let mut flat = cfg();
    flat.organize_by_type = false;
    assert_eq!(destination_dir(&flat, &None, Category::Video).folder, None);

    let target = FilePath::new("/root/Video", "a (1).mp4");
    let apart = choose_part_path(&c, "https://x.test/a.mp4", "/root/Video", "a.mp4", &target);
    assert_eq!(apart.dir, "/tmp");
    let mut beside = cfg();
    beside.use_temp_dir = false;
    assert_eq!(
        choose_part_path(&beside, "https://x.test/a.mp4", "/root/Video", "a.mp4", &target),
        FilePath::new("/root/Video", "a (1).mp4.part")
    );
}

#[test]
fn a_tripped_token_stays_tripped_and_trips_no_other() {
    let mut t = CancelToken::new();
    let other = CancelToken::new();
    assert!(!t.is_cancelled());
    t.cancel();
    t.cancel();
    assert!(t.is_cancelled());
    assert!(!other.is_cancelled());
}

#[test]
fn an_unsized_body_may_be_empty() {
    let mut pool = Pool::new(Plan::single(None), false, 8, 1000);
    assert_eq!(pool.launch(), vec![0]);
    let mut attempt = 0;
    assert!(matches!(
        segment_end(pool.segment_mut(0), &mut attempt, Ok(()), 3, false, true),
        SegmentStep::Done
    ));
    assert_eq!(pool.finished(0, Ok(())), Vec::<usize>::new());
    assert!(pool.is_drained());
    assert_eq!(verdict(&pool), Ok(()));
    let done = finalize(&cfg(), pool.plan(), Category::Other, false, b"");
    assert_eq!((done.bytes, done.truncate), (0, true));
    assert_eq!(pool.plan().count(), 1);

    // A stream that never came to its end is no success.
    let mut cut = Pool::new(Plan::single(None), false, 8, 1000);
    assert_eq!(cut.launch(), vec![0]);
    assert!(verdict(&cut).is_err());
    assert_eq!(cut.finished(0, Err(Error::Status(404))), Vec::<usize>::new());
    assert_eq!(verdict(&cut), Err(Error::Status(404)));
}

#[test]
fn a_checkpoint_is_due_once_a_second() {
    assert!(!checkpoint_is_due(0));
    assert!(!checkpoint_is_due(999));
    assert!(checkpoint_is_due(1000));
    assert!(checkpoint_is_due(60_000));
}
