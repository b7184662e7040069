use fdm::error::{Error, HttpFault};
use fdm::link::Link;
use fdm::probe::{
    advertises_ranges, derive_filename, extract_validator, from_full_response,
    from_partial_response, head_settles, judge_plain_get, parse_content_range_start,
    parse_content_range_total, probe_request, probe_step, ProbeEvent, ProbeStep, Question,
    RemoteInfo,
};
use reqwest::header::{
    HeaderMap, ACCEPT_RANGES, CONTENT_DISPOSITION, CONTENT_LENGTH, CONTENT_RANGE, CONTENT_TYPE,
    ETAG, LAST_MODIFIED,
};

fn link(url: &str) -> Link {
    Link::parse(url).unwrap()
}

fn fault() -> HttpFault {
    HttpFault {
        timeout: true,
        connect: false,
        request: false,
        body: false,
        message: "slow".into(),
    }
}

#[test]
fn reads_total_from_content_range() {
    assert_eq!(parse_content_range_total("bytes 0-0/146515"), Some(146515));
    assert_eq!(parse_content_range_total("bytes 0-1023/146515"), Some(146515));
}

#[test]
fn unknown_total_is_none() {
    assert_eq!(parse_content_range_total("bytes 0-0/*"), None);
}

#[test]
fn reads_start_offset_from_content_range() {
    assert_eq!(parse_content_range_start("bytes 1024-2047/146515"), Some(1024));
    assert_eq!(parse_content_range_start("bytes 0-0/146515"), Some(0));
}

#[test]
fn accept_ranges_none_means_unsupported() {
    let mut h = HeaderMap::new();
    h.insert(ACCEPT_RANGES, "none".parse().unwrap());
    assert!(!advertises_ranges(&h));

    h.insert(ACCEPT_RANGES, "bytes".parse().unwrap());
    assert!(advertises_ranges(&h));
}

#[test]
fn missing_accept_ranges_means_unsupported() {
    assert!(!advertises_ranges(&HeaderMap::new()));
}

#[test]
fn weak_etag_is_rejected_as_validator() {
    let mut h = HeaderMap::new();
    h.insert(ETAG, "W/\"abc\"".parse().unwrap());
    h.insert(LAST_MODIFIED, "Wed, 21 Oct 2015 07:28:00 GMT".parse().unwrap());
    let (validator, is_etag) = extract_validator(&h);
    assert!(!is_etag, "weak ETag must not be used for If-Range");
    assert_eq!(validator.as_deref(), Some("Wed, 21 Oct 2015 07:28:00 GMT"));
}

#[test]
fn strong_etag_wins_over_last_modified() {
    let mut h = HeaderMap::new();
    h.insert(ETAG, "\"e4a2b-2f\"".parse().unwrap());
    h.insert(LAST_MODIFIED, "Wed, 21 Oct 2015 07:28:00 GMT".parse().unwrap());
    let (validator, is_etag) = extract_validator(&h);
    assert!(is_etag);
    assert_eq!(validator.as_deref(), Some("\"e4a2b-2f\""));
}

#[test]
fn cannot_segment_without_a_size() {
    let info = RemoteInfo {
        final_url: link("https://example.com/f"),
        total_size: None,
        supports_ranges: true,
        validator: None,
        validator_is_etag: false,
        mime: None,
        filename: "f".into(),
    };
    assert!(!info.can_segment());
}

#[test]
fn a_partial_answer_proves_ranges_and_gives_the_size() {
    let mut h = HeaderMap::new();
    h.insert(CONTENT_RANGE, "bytes 0-0/2048".parse().unwrap());
    h.insert(CONTENT_TYPE, "application/zip".parse().unwrap());
    h.insert(ETAG, "\"v1\"".parse().unwrap());
    let info = from_partial_response(&link("https://a.test/x"), &link("https://b.test/y.zip"), &h);
    assert_eq!(info.total_size, Some(2048));
    assert!(info.supports_ranges);
    assert!(info.can_segment());
    assert_eq!(info.validator.as_deref(), Some("\"v1\""));
    assert_eq!(info.mime.as_deref(), Some("application/zip"));
    assert_eq!(info.filename, "y.zip");
    assert_eq!(info.final_url.text, "https://b.test/y.zip");
}

#[test]
fn a_full_answer_claims_no_ranges_by_itself() {
    let mut h = HeaderMap::new();
    h.insert(CONTENT_LENGTH, "77".parse().unwrap());
    h.insert(CONTENT_DISPOSITION, "attachment; filename=\"real.bin\"".parse().unwrap());
    let url = link("https://a.test/x");
    let info = from_full_response(&url, &url, &h, false);
    assert_eq!(info.total_size, Some(77));
    assert!(!info.supports_ranges);
    assert_eq!(info.filename, "real.bin");
    assert_eq!(derive_filename(&url, &url, &HeaderMap::new()), "x");
}

#[test]
fn probing_gives_up_after_its_attempts() {
    let mut attempt = 1;
    let mut waited = Vec::new();
    loop {
        match probe_step(attempt, ProbeEvent::Failed(fault())) {
            ProbeStep::Retry { delay_ms } => waited.push(delay_ms),
            ProbeStep::Fail(e) => {
                assert!(matches!(e, Error::Http(_)));
                break;
            }
            _ => panic!("a failure is no answer"),
        }
        attempt += 1;
    }
    assert_eq!(waited, vec![500, 1000]);
}

#[test]
fn an_answer_to_the_probe_is_read_by_its_status() {
    assert!(matches!(probe_step(1, ProbeEvent::Answered(206)), ProbeStep::Partial));
    assert!(matches!(probe_step(1, ProbeEvent::Answered(200)), ProbeStep::Full));
    assert!(matches!(probe_step(1, ProbeEvent::Answered(416)), ProbeStep::WithoutRange));
    assert!(matches!(probe_step(1, ProbeEvent::TimedOut), ProbeStep::WithoutRange));
    assert!(matches!(
        probe_step(2, ProbeEvent::Answered(503)),
        ProbeStep::Retry { delay_ms: 1600 }
    ));
    assert!(matches!(
        probe_step(4, ProbeEvent::Answered(503)),
        ProbeStep::Fail(Error::Status(503))
    ));
    assert!(matches!(
        probe_step(1, ProbeEvent::Answered(404)),
        ProbeStep::Fail(Error::Status(404))
    ));
}

#[test]
fn a_plain_get_is_judged_by_its_status() {
    assert!(judge_plain_get(Ok(200)).is_ok());
    assert_eq!(judge_plain_get(Ok(404)), Err(Error::Status(404)));
    assert!(matches!(judge_plain_get(Err(fault())), Err(Error::Http(_))));
    assert!(head_settles(Some(200)));
    assert!(!head_settles(Some(405)));
    assert!(!head_settles(None));
}

#[test]
fn every_question_of_a_probe_asks_for_no_coding() {
    let ranged = probe_request(Question::Ranged);
    assert_eq!((ranged.method, ranged.range.as_deref()), ("GET", Some("bytes=0-0")));
    let head = probe_request(Question::Head);
    assert_eq!((head.method, head.range), ("HEAD", None));
    let plain = probe_request(Question::Plain);
    assert_eq!((plain.method, plain.range), ("GET", None));
    for q in [Question::Ranged, Question::Head, Question::Plain] {
        assert_eq!(probe_request(q).accept_encoding, "identity");
    }
}
