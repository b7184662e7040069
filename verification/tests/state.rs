use fdm::link::Link;
use fdm::naming::FilePath;
use fdm::plan::SegmentSnapshot;
use fdm::probe::RemoteInfo;
use fdm::state::{DownloadState, CONTROL_VERSION};

fn info(size: Option<u64>, validator: Option<&str>, ranges: bool) -> RemoteInfo {
    RemoteInfo {
        final_url: Link::parse("https://example.com/f.bin").unwrap(),
        total_size: size,
        supports_ranges: ranges,
        validator: validator.map(str::to_string),
        validator_is_etag: true,
        mime: None,
        filename: "f.bin".into(),
    }
}

fn state(size: Option<u64>, validator: Option<&str>) -> DownloadState {
    DownloadState {
        version: CONTROL_VERSION,
        url: "https://example.com/f.bin".into(),
        final_url: "https://example.com/f.bin".into(),
        total_size: size,
        validator: validator.map(str::to_string),
        validator_is_etag: true,
        filename: "f.bin".into(),
        target: FilePath::new("", "f.bin"),
        segments: vec![SegmentSnapshot { index: 0, start: 0, end: 999, done: 100 }],
    }
}

#[test]
fn resumes_when_size_and_validator_match() {
    let s = state(Some(1000), Some("\"abc\""));
    assert!(s.is_resumable_for("https://example.com/f.bin", &info(Some(1000), Some("\"abc\""), true)));
}

#[test]
fn refuses_resume_when_validator_changed() {
    let s = state(Some(1000), Some("\"abc\""));
    assert!(!s.is_resumable_for("https://example.com/f.bin", &info(Some(1000), Some("\"xyz\""), true)));
}

#[test]
fn refuses_resume_when_size_changed() {
    let s = state(Some(1000), Some("\"abc\""));
    assert!(!s.is_resumable_for("https://example.com/f.bin", &info(Some(2000), Some("\"abc\""), true)));
}

#[test]
fn refuses_resume_when_validator_disappeared() {
    let s = state(Some(1000), Some("\"abc\""));
    assert!(!s.is_resumable_for("https://example.com/f.bin", &info(Some(1000), None, true)));
}

#[test]
fn refuses_resume_without_range_support() {
    let s = state(Some(1000), Some("\"abc\""));
    assert!(!s.is_resumable_for("https://example.com/f.bin", &info(Some(1000), Some("\"abc\""), false)));
}

#[test]
fn bytes_done_clamps_overshoot_from_splits() {
    let mut s = state(Some(1000), None);
    s.segments = vec![
        // done overshoots len after a split; must not inflate the total.
        SegmentSnapshot { index: 0, start: 0, end: 499, done: 700 },
        SegmentSnapshot { index: 1, start: 500, end: 999, done: 200 },
    ];
    assert_eq!(s.bytes_done(), 500 + 200);
}

#[test]
fn another_url_is_another_download() {
    let s = state(Some(1000), None);
    assert!(!s.is_resumable_for("https://example.com/g.bin", &info(Some(1000), None, true)));
    assert!(s.is_resumable_for("https://example.com/f.bin", &info(Some(1000), None, true)));
}

#[test]
fn only_a_known_version_with_segments_is_taken() {
    assert!(DownloadState::vet(state(Some(1000), None)).is_some());
    let mut future = state(Some(1000), None);
    future.version = CONTROL_VERSION + 1;
    assert!(DownloadState::vet(future).is_none());
    let mut empty = state(Some(1000), None);
    empty.segments = vec![];
    assert!(DownloadState::vet(empty).is_none());
}

#[test]
fn a_checkpoint_takes_the_servers_word() {
    let remote = info(Some(77), Some("\"v\""), true);
    let target = FilePath::new("/d", "f.bin");
    let segments = vec![SegmentSnapshot { index: 0, start: 0, end: 76, done: 7 }];
    let s = DownloadState::new("https://x.test/", &remote, &target, segments.clone());
    assert_eq!(s.version, CONTROL_VERSION);
    assert_eq!(s.url, "https://x.test/");
    assert_eq!(s.final_url, "https://example.com/f.bin");
    assert_eq!(s.total_size, Some(77));
    assert_eq!(s.validator.as_deref(), Some("\"v\""));
    assert_eq!(s.segments, segments);
    assert_eq!(
        DownloadState::staging_path(&FilePath::new("/t", "x.part.fdm")),
        FilePath::new("/t", "x.part.fdm.tmp")
    );
}
