use fdm::cli::{
    detail_line, headers_fit, parse_headers, progress_line, run_config, summary_line, HeaderFault,
};
use fdm::categorize::Category;
use fdm::client::ClientError;
use fdm::config::EngineConfig;
use fdm::download::DownloadOutcome;
use fdm::error::{Error, HttpFault, IoFault, IoKind};
use fdm::header_list::HeaderList;
use fdm::host::{
    answer_ping, browser_headers, connect_failed, engine_failure, is_resumable, lock_dir, relayed,
    validate_url, Host, HostStep, Job, JobEvent, LocalEngine, Next, Relay, Search,
    Unreached, LAUNCH_POLLS,
};
use fdm::lock::Claim;
use fdm::media::Stream;
use fdm::naming::FilePath;
use fdm::progress::ProgressSnapshot;
use fdm::protocol::{answer_unreadable, DownloadCommand, Incoming, Outgoing, PROTOCOL_VERSION};
use fdm::text::hex;
use fdm::wire::Welcome;
use fdm::writer::{must_resize, PositionedWrite, Rest};

fn command(url: &str, headers: &[(&str, &str)]) -> DownloadCommand {
    let mut list = HeaderList::new();
    for (k, v) in headers {
        list.insert(k.to_string(), v.to_string());
    }
    DownloadCommand {
        id: 1,
        url: url.into(),
        headers: list,
        filename: None,
        total_bytes: None,
        target_dir: None,
        audio_url: None,
        protocol: None,
    }
}

fn cmd_with(headers: &[(&str, &str)]) -> DownloadCommand {
    command("https://example.com/a.bin", headers)
}

// ------------------------------------------------------------------- the rules

#[test]
fn main_keeps_the_headers_that_make_authenticated_downloads_work() {
    let map = browser_headers(&cmd_with(&[
        ("Cookie", "session=abc123"),
        ("Referer", "https://example.com/page"),
        ("User-Agent", "Mozilla/5.0"),
    ]));
    assert_eq!(map.get("cookie").unwrap(), "session=abc123");
    assert_eq!(map.get("referer").unwrap(), "https://example.com/page");
    assert_eq!(map.get("user-agent").unwrap(), "Mozilla/5.0");
}

#[test]
fn main_drops_accept_encoding_whatever_case_it_arrives_in() {
    // The important one: a gzipped body makes every byte range refer to
    // compressed offsets, so segment boundaries land in the wrong place.
    let map = browser_headers(&cmd_with(&[
        ("Accept-Encoding", "gzip, deflate, br"),
        ("accept-encoding", "gzip"),
        ("ACCEPT-ENCODING", "br"),
    ]));
    assert!(map.get("accept-encoding").is_none());
}

#[test]
fn main_drops_connection_level_headers() {
    let map = browser_headers(&cmd_with(&[
        ("Host", "evil.example"),
        ("Content-Length", "0"),
        ("Range", "bytes=0-10"),
        ("Transfer-Encoding", "chunked"),
        ("Cookie", "keep=me"),
    ]));
    assert_eq!(map.len(), 1, "only Cookie should survive");
    assert!(map.get("cookie").is_some());
}

#[test]
fn main_one_malformed_cookie_does_not_lose_the_others() {
    let map = browser_headers(&cmd_with(&[
        ("Cookie", "fine=yes"),
        ("X-Bad", "line\nbreak"),
        ("Referer", "https://example.com/"),
    ]));
    assert!(map.get("x-bad").is_none());
    assert_eq!(map.len(), 2);
}

#[test]
fn rejects_schemes_that_are_not_downloads() {
    for bad in [
        "file:///C:/Windows/System32/config/SAM",
        "data:text/plain,hello",
        "blob:https://example.com/1234",
        "chrome-extension://abc/page.html",
        "ftp://example.com/x",
        "javascript:alert(1)",
    ] {
        assert!(validate_url(bad).is_err(), "{bad} must be refused");
    }
    assert_eq!(
        validate_url("ftp://example.com/x").unwrap_err(),
        "FDM only handles http and https downloads, not ftp:"
    );
}

#[test]
fn accepts_ordinary_download_urls() {
    assert!(validate_url("https://example.com/file.iso").is_ok());
    assert!(validate_url("http://example.com/file.iso?token=x").is_ok());
}

#[test]
fn a_404_is_not_worth_resuming_but_a_dead_network_is() {
    assert!(!is_resumable(&Error::Status(404)));
    assert!(!is_resumable(&Error::ResourceChanged));
    assert!(is_resumable(&Error::Status(503)));
    assert!(is_resumable(&Error::RetriesExhausted("timeout".into())));
}

// ------------------------------------------------------------------- messages

#[test]
fn messages_of_another_version_are_turned_away() {
    let host = Host::new();
    let ping = host.dispatch(Incoming::Ping { id: Some(3), protocol: Some(99) });
    match ping {
        HostStep::Send(Outgoing::Error { id, message, version_mismatch }) => {
            assert_eq!(id, Some(3));
            assert!(version_mismatch);
            assert!(message.contains("v99") && message.contains("v1"), "{message}");
        }
        _ => panic!("a mismatch is reported"),
    }
    let mut cmd = cmd_with(&[]);
    cmd.protocol = Some(2);
    assert!(matches!(
        host.dispatch(Incoming::Download(cmd)),
        HostStep::Send(Outgoing::Error { id: Some(1), version_mismatch: true, .. })
    ));
    let mut cmd = cmd_with(&[]);
    cmd.protocol = Some(PROTOCOL_VERSION);
    assert!(matches!(host.dispatch(Incoming::Download(cmd)), HostStep::Take(_)));
    assert!(matches!(
        host.dispatch(Incoming::Ping { id: None, protocol: None }),
        HostStep::Describe { id: None }
    ));
    assert_eq!(
        Outgoing::unreadable(Some(4), "bad"),
        Outgoing::error(Some(4), "unreadable message: bad")
    );
}

#[test]
fn a_stop_reaches_the_download_last_taken_under_its_id() {
    let mut host = Host::new();
    assert!(matches!(
        host.dispatch(Incoming::Cancel { id: 5 }),
        HostStep::Send(Outgoing::Error { id: Some(5), .. })
    ));
    let first = host.register(5);
    let second = host.register(6);
    assert_ne!(first, second);
    assert_eq!(host.active(), vec![5, 6]);
    assert!(matches!(host.dispatch(Incoming::Cancel { id: 5 }), HostStep::Stop { job } if job == first));
    let third = host.register(5);
    assert!(matches!(host.dispatch(Incoming::Cancel { id: 5 }), HostStep::Stop { job } if job == third));
    match host.dispatch(Incoming::Status { id: Some(1) }) {
        HostStep::Send(Outgoing::Status { id, mut active }) => {
            active.sort();
            assert_eq!((id, active), (Some(1), vec![5, 6]));
        }
        _ => panic!("a status is answered"),
    }
    host.unregister(5);
    assert_eq!(host.active(), vec![6]);
    assert_eq!(host.job_of(5), None);
}

#[test]
fn a_ping_describes_whoever_owns_the_downloads() {
    let app = Welcome {
        version: "9".into(),
        pid: 1,
        download_root: "/app".into(),
        temp_dir: "/t".into(),
        use_temp_dir: true,
        max_active: 3,
        max_connections: 12,
    };
    let local = LocalEngine::Ready { download_root: "/local".into(), max_connections: 64 };
    let root_of = |m: Outgoing| match m {
        Outgoing::Pong { download_root, max_connections, protocol, categories, .. } => {
            assert_eq!(protocol, PROTOCOL_VERSION);
            assert_eq!(categories.len(), 7);
            assert_eq!(categories[0], "Documents");
            (download_root, max_connections)
        }
        other => panic!("{other:?}"),
    };
    assert_eq!(
        root_of(answer_ping(None, "0.1.5", "/h", Some(&app), &local)),
        ("/app".to_string(), 12)
    );
    assert_eq!(
        root_of(answer_ping(None, "0.1.5", "/h", None, &local)),
        ("/local".to_string(), 64)
    );
    let why = engine_failure(&Error::other("no sockets"));
    assert_eq!(why, "FDM's download engine failed to start: no sockets");
    assert_eq!(
        answer_ping(Some(2), "0.1.5", "/h", None, &LocalEngine::Failed(why.clone())),
        Outgoing::error(Some(2), &why)
    );
}

#[test]
fn an_app_that_is_not_there_is_started_and_looked_for() {
    assert!(matches!(
        connect_failed(&ClientError::NotRunning, None),
        Unreached::Launch { delay_ms: 100 }
    ));
    assert!(matches!(
        connect_failed(&ClientError::Closed, Some(0)),
        Unreached::Poll { delay_ms: 100 }
    ));
    assert!(matches!(
        connect_failed(&ClientError::NotRunning, Some(15)),
        Unreached::GiveUp(Relay::NotRunning)
    ));
    match connect_failed(&ClientError::Closed, None) {
        Unreached::GiveUp(Relay::Failed(m)) => assert_eq!(m, ClientError::Closed.message()),
        _ => panic!("another failure is final"),
    }
    assert!(matches!(relayed(Ok(7)), Relay::Handed));
    assert!(matches!(relayed(Err(ClientError::Closed)), Relay::Failed(_)));
}

#[test]
fn locks_are_per_user() {
    assert_eq!(lock_dir(Some("L"), "T"), vec!["L", "FDM", "locks"]);
    assert_eq!(lock_dir(None, "T"), vec!["T", "FDM", "locks"]);
}

// ------------------------------------------------------------------------ jobs

fn outcome() -> DownloadOutcome {
    DownloadOutcome {
        path: FilePath::new("/root/Video", "a.mp4"),
        bytes: 5_242_880,
        elapsed_ms: 125_999,
        segments_used: 16,
        category: Category::Video,
        resumed: true,
        used_ranges: true,
    }
}

/// A job at the point where it is fetched here.
fn fetching(host: &mut Host) -> Job {
    let (mut job, turn) = Job::begin(cmd_with(&[("Cookie", "a=b"), ("Range", "bytes=0-")]));
    assert!(matches!(turn.next, Next::Relay(_)));
    let turn = job.step(JobEvent::Relayed(Relay::NotRunning), host);
    assert!(turn.send.is_none());
    assert!(matches!(turn.next, Next::StartEngine));
    let turn = job.step(JobEvent::Engine(Ok(())), host);
    assert!(matches!(turn.next, Next::Claim { url } if url == "https://example.com/a.bin"));
    let turn = job.step(JobEvent::Claimed(Claim::Held), host);
    assert_eq!(
        turn.send,
        Some(Outgoing::Accepted { id: 1, url: "https://example.com/a.bin".into() })
    );
    assert!(matches!(turn.next, Next::Queue { .. }));
    assert_eq!(host.active(), vec![1]);
    let turn = job.step(JobEvent::Slot { granted: true, stopped: false }, host);
    match turn.next {
        Next::Fetch(request) => {
            assert_eq!(request.headers.get("cookie").unwrap(), "a=b");
            assert!(request.headers.get("range").is_none());
        }
        _ => panic!("the job has its slot"),
    }
    job
}

#[test]
fn a_download_the_app_takes_is_the_apps() {
    let mut host = Host::new();
    let mut cmd = cmd_with(&[("Cookie", "a=b")]);
    cmd.audio_url = Some("https://example.com/a.m4a".into());
    let (mut job, turn) = Job::begin(cmd);
    match turn.next {
        Next::Relay(add) => {
            assert_eq!(add.url, "https://example.com/a.bin");
            assert_eq!(add.headers.get("Cookie"), Some("a=b"));
            assert_eq!(add.audio_url.as_deref(), Some("https://example.com/a.m4a"));
        }
        _ => panic!("the app is asked first"),
    }
    let turn = job.step(JobEvent::Relayed(Relay::Handed), &mut host);
    assert_eq!(
        turn.send,
        Some(Outgoing::Accepted { id: 1, url: "https://example.com/a.bin".into() })
    );
    assert!(matches!(turn.next, Next::Finish));
    assert!(host.active().is_empty());
}

#[test]
fn a_video_page_is_resolved_before_anything_else() {
    let mut host = Host::new();
    let (mut job, turn) = Job::begin(command("https://WWW.YouTube.com/Watch?v=1", &[]));
    assert!(matches!(turn.next, Next::Resolve { url } if url == "https://WWW.YouTube.com/Watch?v=1"));
    let stream = Stream { url: "https://cdn.test/v.mp4".into(), filename: Some("Zoo.mp4".into()) };
    let turn = job.step(JobEvent::Resolved(Some(stream)), &mut host);
    match turn.next {
        Next::Relay(add) => {
            assert_eq!(add.url, "https://cdn.test/v.mp4");
            assert_eq!(add.filename.as_deref(), Some("Zoo.mp4"));
        }
        _ => panic!("the stream goes to the app"),
    }
}

#[test]
fn a_job_reports_its_progress_and_its_end() {
    let mut host = Host::new();
    let mut job = fetching(&mut host);
    let p = ProgressSnapshot {
        downloaded: 10,
        total: Some(100),
        speed_bits: 1.5f64.to_bits(),
        active_connections: 8,
        segments: 8,
        eta_secs: Some(60),
        elapsed_ms: 5,
    };
    let turn = job.step(JobEvent::Progress(p), &mut host);
    assert_eq!(
        turn.send,
        Some(Outgoing::Progress {
            id: 1,
            downloaded: 10,
            total: Some(100),
            speed_bits: 1.5f64.to_bits(),
            eta_seconds: Some(60),
            segments: 8,
            active_connections: 8,
        })
    );
    assert!(matches!(turn.next, Next::Carry));
    let turn = job.step(JobEvent::Ended(Ok((outcome(), "/root/Video/a.mp4".into()))), &mut host);
    assert_eq!(
        turn.send,
        Some(Outgoing::Completed {
            id: 1,
            path: "/root/Video/a.mp4".into(),
            bytes: 5_242_880,
            elapsed_ms: 125_999,
            category: "Video".into(),
            segments: 16,
            resumed: true,
            used_ranges: true,
        })
    );
    assert!(matches!(turn.next, Next::Finish));
    assert!(host.active().is_empty());
}

#[test]
fn a_job_that_fails_says_whether_resuming_helps() {
    for (error, resumable) in [
        (Error::Status(404), false),
        (Error::RetriesExhausted("x".into()), true),
        (
            Error::Http(HttpFault {
                timeout: true,
                connect: false,
                request: false,
                body: false,
                message: "slow".into(),
            }),
            true,
        ),
    ] {
        let mut host = Host::new();
        let mut job = fetching(&mut host);
        let message = error.message();
        let turn = job.step(JobEvent::Ended(Err(error)), &mut host);
        assert_eq!(turn.send, Some(Outgoing::Failed { id: 1, message, resumable }));
        assert!(host.active().is_empty());
    }
    let mut host = Host::new();
    let mut job = fetching(&mut host);
    let turn = job.step(JobEvent::Ended(Err(Error::Cancelled)), &mut host);
    assert_eq!(turn.send, Some(Outgoing::Cancelled { id: 1 }));
}

#[test]
fn a_job_that_cannot_be_fetched_here_is_over() {
    let mut host = Host::new();
    let (mut job, _) = Job::begin(command("file:///etc/passwd", &[]));
    let turn = job.step(JobEvent::Relayed(Relay::Failed("no".into())), &mut host);
    assert!(matches!(turn.send, Some(Outgoing::Failed { resumable: false, .. })));
    assert!(matches!(turn.next, Next::Finish));

    let (mut job, _) = Job::begin(cmd_with(&[]));
    job.step(JobEvent::Relayed(Relay::NotRunning), &mut host);
    let turn = job.step(JobEvent::Engine(Err("no engine".into())), &mut host);
    assert_eq!(turn.send, Some(Outgoing::error(Some(1), "no engine")));

    for (claim, message, resumable) in [
        (Claim::Taken, "FDM is already downloading this URL.", false),
        (
            Claim::Failed(IoFault { kind: IoKind::Other, code: None, message: "disk".into() }),
            "could not claim this download: disk",
            true,
        ),
    ] {
        let (mut job, _) = Job::begin(cmd_with(&[]));
        job.step(JobEvent::Relayed(Relay::NotRunning), &mut host);
        job.step(JobEvent::Engine(Ok(())), &mut host);
        let turn = job.step(JobEvent::Claimed(claim), &mut host);
        assert_eq!(
            turn.send,
            Some(Outgoing::Failed { id: 1, message: message.into(), resumable })
        );
    }

    for (granted, stopped) in [(false, false), (true, true)] {
        let (mut job, _) = Job::begin(cmd_with(&[]));
        job.step(JobEvent::Relayed(Relay::NotRunning), &mut host);
        job.step(JobEvent::Engine(Ok(())), &mut host);
        job.step(JobEvent::Claimed(Claim::Held), &mut host);
        let turn = job.step(JobEvent::Slot { granted, stopped }, &mut host);
        if stopped {
            assert_eq!(turn.send, Some(Outgoing::Cancelled { id: 1 }));
        } else {
            assert_eq!(
                turn.send,
                Some(Outgoing::Failed {
                    id: 1,
                    message: "FDM is shutting down.".into(),
                    resumable: true,
                })
            );
        }
        assert!(host.active().is_empty());
    }
}

// ------------------------------------------------------------------------- cli

#[test]
fn header_arguments_add_up() {
    let raw = vec!["Cookie: a=b".to_string(), "cookie:c=d".into(), " X-Y :  z: w ".into()];
    let map = parse_headers(&raw).unwrap();
    let cookies: Vec<&str> = map
        .get_all("cookie")
        .iter()
        .map(|v| v.to_str().unwrap())
        .collect();
    assert_eq!(cookies, vec!["a=b", "c=d"]);
    assert_eq!(map.get("x-y").unwrap(), "z: w");
}

#[test]
fn a_bad_header_argument_is_named() {
    let said = |raw: &str| {
        let f = parse_headers(&vec!["A: b".to_string(), raw.to_string()]).unwrap_err();
        (f.clone(), f.message())
    };
    let (f, m) = said("no colon");
    assert!(matches!(f, HeaderFault::NoColon { .. }));
    assert_eq!(m, "header `no colon` is missing a colon; expected \"Name: value\"");
    let (f, m) = said("bad name : x");
    assert!(matches!(f, HeaderFault::BadName { .. }));
    assert_eq!(m, "`bad name ` is not a valid header name");
    let (f, m) = said("X-A: line\nbreak");
    assert!(matches!(f, HeaderFault::BadValue { .. }));
    assert_eq!(m, "` line\nbreak` is not a valid value for `x-a`");
}

#[test]
fn the_command_line_turns_the_knobs() {
    let base = || EngineConfig::new("/r", "/t");
    let cfg = run_config(base(), 16, false, 4, false, None);
    assert_eq!((cfg.max_connections, cfg.min_split_size), (16, 4 * 1024 * 1024));
    assert!(cfg.organize_by_type);
    assert_eq!(cfg.download_root, "/r");
    let cfg = run_config(base(), 16, true, 1, true, Some("/o".into()));
    assert_eq!((cfg.max_connections, cfg.min_split_size), (1, 1024 * 1024));
    assert!(!cfg.organize_by_type);
    assert_eq!(cfg.download_root, "/o");
}

#[test]
fn the_command_line_says_how_it_went() {
    let p = ProgressSnapshot {
        downloaded: 1,
        total: None,
        speed_bits: 0,
        active_connections: 2,
        segments: 5,
        eta_secs: Some(65),
        elapsed_ms: 0,
    };
    assert_eq!(progress_line(&p, 1536), "1.50 KiB/s · 2 of 5 seg active · ETA 1m 05s");
    let p = ProgressSnapshot { eta_secs: None, ..p };
    assert_eq!(progress_line(&p, 0), "0 B/s · 2 of 5 seg active");
    assert_eq!(summary_line(&outcome(), 1024), "  5.00 MiB in 2m 05s (1.00 KiB/s average)");
    assert_eq!(detail_line(&outcome()), "  16 segments · Video · ranges yes · resumed");
    let mut fresh = outcome();
    fresh.resumed = false;
    fresh.used_ranges = false;
    assert_eq!(detail_line(&fresh), "  16 segments · Video · ranges no · fresh download");
    assert_eq!(hex(&[0, 1, 0xab, 0xff]), "0001abff");
}

// --------------------------------------------------------------------- writing

#[test]
fn a_write_in_pieces_lands_in_order() {
    let data = b"hello world".to_vec();
    let mut file = vec![b'.'; 20];
    let mut w = PositionedWrite::new(5, data.len());
    let mut takes = vec![3, 1, 7].into_iter();
    while let Some(Rest { from, at }) = w.rest() {
        let n = takes.next().unwrap();
        for k in 0..n {
            file[at as usize + k] = data[from + k];
        }
        w.took(n).unwrap();
    }
    assert_eq!(file, b".....hello world....".to_vec());

    let mut stuck = PositionedWrite::new(0, 4);
    assert_eq!(
        stuck.took(0).unwrap_err().message,
        "positioned write made no progress"
    );
}

#[test]
fn a_file_of_the_right_size_is_left_alone() {
    assert_eq!(must_resize(10, Some(10)), None);
    assert_eq!(must_resize(0, Some(10)), Some(10));
    assert_eq!(must_resize(10, None), None);
}

#[test]
fn a_name_may_come_on_the_command_line_as_often_as_it_likes() {
    let raw: Vec<String> = (0..7000).map(|n| format!("X-A: {n}")).collect();
    assert!(headers_fit(&raw));
    let map = parse_headers(&raw).unwrap();
    assert_eq!((map.keys_len(), map.len()), (1, 7000));

    let many: Vec<String> = (0..7000).map(|n| format!("X-{n}: v")).collect();
    assert!(!headers_fit(&many));
    let mut faulty = many.clone();
    faulty[10] = "no colon".to_string();
    assert!(headers_fit(&faulty));
    assert!(matches!(parse_headers(&faulty), Err(HeaderFault::NoColon { .. })));
}

#[test]
fn an_unreadable_message_fails_the_row_it_names() {
    let answer = |raw: &str| answer_unreadable(raw.as_bytes(), "why");
    let says = |id| Outgoing::error(id, "unreadable message: why");
    assert_eq!(answer(r#"{"type":"download","id":7}"#), says(Some(7)));
    assert_eq!(answer(r#"{"id":1,"id":18446744073709551615}"#), says(Some(u64::MAX)));
    assert_eq!(answer(r#"{"id":-1}"#), says(None));
    assert_eq!(answer(r#"{"id":"7"}"#), says(None));
    assert_eq!(answer(r#"{"id":7.0}"#), says(None));
    assert_eq!(answer(r#"{"row":7}"#), says(None));
    assert_eq!(answer("[7]"), says(None));
    assert_eq!(answer(r#"{"id":7"#), says(None));
    assert_eq!(answer_unreadable(&[0xff], "why"), says(None));
}

#[test]
fn a_started_app_is_looked_for_so_often() {
    let mut search = Search::new();
    assert!(matches!(search.failed(&ClientError::NotRunning), Unreached::Launch { .. }));
    let mut looks = 0;
    loop {
        looks += 1;
        match search.failed(&ClientError::NotRunning) {
            Unreached::Poll { delay_ms } => assert_eq!(delay_ms, 100),
            Unreached::GiveUp(Relay::NotRunning) => break,
            _ => panic!("it is started once"),
        }
    }
    assert_eq!(looks, LAUNCH_POLLS);
}
