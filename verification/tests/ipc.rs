use fdm::client::{
    added, await_reply, done, entry, listed, next_event, Arrived, Awaited, Client, ClientError,
    Next,
};
use fdm::error::{IoFault, IoKind};
use fdm::frame::{is_disconnect, read_frame, write_frame, ByteOrder, ByteReader};
use fdm::framing::{read_message, write_message, MAX_OUTGOING};
use fdm::header_list::HeaderList;
use fdm::lock::{acquire, lock_name, lock_name_for, Claim};
use fdm::manager::{Manager, ManagerError};
use fdm::model::{DownloadEntry, Event, Status};
use fdm::pipe::{bind_failure, connect_failure, owner_only, pipe_name, BindError, ConnectStep};
use fdm::session::{dispatch, forward, new_download, Dispatched, Feed, Received, Session, SessionStep};
use fdm::wire::{
    AddRequest, Call, ErrorKind, EventMessage, Reply, Request, ServerMessage, Welcome,
    PROTOCOL_VERSION,
};

fn native() -> ByteOrder {
    if 1u32.to_ne_bytes()[0] == 1 {
        ByteOrder::Little
    } else {
        ByteOrder::Big
    }
}

fn fault(kind: IoKind, code: Option<i32>) -> IoFault {
    IoFault { kind, code, message: "gone".into() }
}

fn welcome() -> Welcome {
    Welcome {
        version: "0.1.5".into(),
        pid: 77,
        download_root: "/root".into(),
        temp_dir: "/tmp".into(),
        use_temp_dir: true,
        max_active: 4,
        max_connections: 4,
    }
}

fn add(url: &str) -> AddRequest {
    AddRequest::new(url)
}

// ------------------------------------------------------------------- framing

#[test]
fn round_trips_a_message() {
    let mut buf = Vec::new();
    write_message(&mut buf, br#"{"type":"ping"}"#, native()).unwrap();

    let mut cursor = ByteReader::new(buf);
    let got = read_message(&mut cursor, native()).unwrap().unwrap();
    assert_eq!(got, br#"{"type":"ping"}"#);
    // Second read hits EOF, which is a closed port and not a failure.
    assert!(read_message(&mut cursor, native()).unwrap().is_none());
}

#[test]
fn prefix_is_native_order_not_network_order() {
    let mut buf = Vec::new();
    write_message(&mut buf, b"hi", native()).unwrap();
    assert_eq!(&buf[..4], &2u32.to_ne_bytes());
}

#[test]
fn counts_bytes_not_characters() {
    // "é" is two bytes of UTF-8. A character count would write 1 here and
    // desynchronise the stream on the very next message.
    let mut buf = Vec::new();
    write_message(&mut buf, "é".as_bytes(), native()).unwrap();
    assert_eq!(&buf[..4], &2u32.to_ne_bytes());
}

#[test]
fn framing_rejects_an_absurd_length_prefix() {
    let mut stream = u32::MAX.to_ne_bytes().to_vec();
    stream.extend_from_slice(b"nowhere near 4 GiB");
    let err = read_message(&mut ByteReader::new(stream), native()).unwrap_err();
    assert_eq!(err.kind, IoKind::InvalidData);
}

#[test]
fn a_truncated_body_is_an_error() {
    let mut stream = 16u32.to_ne_bytes().to_vec();
    stream.extend_from_slice(b"only 9 by");
    assert!(read_message(&mut ByteReader::new(stream), native()).is_err());
}

#[test]
fn refuses_to_exceed_chromes_response_cap() {
    let big = vec![b'x'; MAX_OUTGOING + 1];
    assert!(write_message(&mut Vec::new(), &big, native()).is_err());
}

#[test]
fn round_trips_two_frames_from_one_buffer() {
    let mut buf = Vec::new();
    write_frame(&mut buf, b"first", native()).unwrap();
    write_frame(&mut buf, b"second", native()).unwrap();

    // A single stream carrying two messages is the normal case, and the reason
    // the prefix exists.
    let mut cursor = ByteReader::new(buf);
    assert_eq!(read_frame(&mut cursor, native()).unwrap().unwrap(), b"first");
    assert_eq!(read_frame(&mut cursor, native()).unwrap().unwrap(), b"second");
    assert!(read_frame(&mut cursor, native()).unwrap().is_none());
}

#[test]
fn the_prefix_is_native_order_and_counts_bytes() {
    let mut buf = Vec::new();
    write_frame(&mut buf, "é".as_bytes(), native()).unwrap();
    assert_eq!(&buf[..4], &2u32.to_ne_bytes());
    let mut big = Vec::new();
    write_frame(&mut big, b"hi", ByteOrder::Big).unwrap();
    assert_eq!(&big[..4], &[0, 0, 0, 2]);
}

#[test]
fn frame_rejects_an_absurd_length_prefix() {
    let mut stream = u32::MAX.to_ne_bytes().to_vec();
    stream.extend_from_slice(b"nowhere near 4 GiB");
    let err = read_frame(&mut ByteReader::new(stream), native()).unwrap_err();
    assert_eq!(err.kind, IoKind::InvalidData);
}

#[test]
fn a_truncated_body_is_an_error_but_a_truncated_prefix_is_not() {
    let mut stream = 16u32.to_ne_bytes().to_vec();
    stream.extend_from_slice(b"only 9 by");
    assert!(read_frame(&mut ByteReader::new(stream), native()).is_err());

    // Two bytes of a four-byte prefix: the peer died between messages.
    assert!(read_frame(&mut ByteReader::new(vec![0u8, 0]), native()).unwrap().is_none());
}

#[test]
fn a_closed_pipe_is_recognised_by_its_raw_code() {
    // 109 is ERROR_BROKEN_PIPE, which is left uncategorised on some paths.
    assert!(is_disconnect(&fault(IoKind::Other, Some(109))));
    assert!(is_disconnect(&fault(IoKind::Other, Some(233))));
    assert!(!is_disconnect(&fault(IoKind::InvalidData, None)));
    assert!(is_disconnect(&fault(IoKind::BrokenPipe, None)));
}

// ---------------------------------------------------------------------- pipe

#[test]
fn the_pipe_name_is_per_user_and_stable() {
    let sid = "S-1-5-21-1111-2222-3333-1001";
    let first = pipe_name(sid);
    assert!(first.starts_with(r"\\.\pipe\fdm.manager.S-1-"), "{first}");
    // Both halves of FDM call this function, so the second call has to agree
    // with the first.
    assert_eq!(first, pipe_name(sid));
}

#[test]
fn the_pipe_is_open_to_its_owner_alone() {
    let sid = "S-1-5-21-1111-2222-3333-1001";
    let sddl = owner_only(sid);
    assert!(sddl.contains(sid), "{sddl}");
    assert!(!sddl.contains(";WD)"), "Everyone must not be on the ACL: {sddl}");
    assert!(!sddl.contains(";AU)"), "{sddl}");
    assert!(sddl.starts_with("D:P"), "{sddl}");
    assert_ne!(pipe_name(sid), pipe_name("S-1-5-21-1111-2222-3333-1002"));
}

#[test]
fn a_taken_pipe_means_that_the_app_runs() {
    assert!(matches!(
        bind_failure(fault(IoKind::PermissionDenied, Some(5))),
        BindError::AlreadyRunning
    ));
    let other = bind_failure(fault(IoKind::Other, Some(87)));
    assert_eq!(other.message(), "could not create the FDM pipe: gone");
    assert!(matches!(
        connect_failure(fault(IoKind::NotFound, Some(2)), 0),
        ConnectStep::NotRunning
    ));
    assert!(matches!(
        connect_failure(fault(IoKind::Other, Some(231)), 0),
        ConnectStep::Wait { .. }
    ));
    assert!(matches!(
        connect_failure(fault(IoKind::Other, Some(231)), 1000),
        ConnectStep::Fail(_)
    ));
}

// ---------------------------------------------------------------------- lock

#[test]
fn long_and_hostile_urls_still_produce_a_valid_filename() {
    let url = format!("https://example.com/{}?a=b:c<d>e|f\"g", "x".repeat(4096));
    let name = lock_name(&url);
    assert!(name.len() < 100, "{name}");
    assert!(
        name.chars().all(|c| c.is_ascii_alphanumeric() || c == '.' || c == '-'),
        "{name}"
    );
}

#[test]
fn different_urls_do_not_contend() {
    assert_ne!(
        lock_name("https://example.com/a.iso"),
        lock_name("https://example.com/b.iso")
    );
    // The digest of the empty text is well known.
    assert_eq!(
        lock_name(""),
        lock_name_for(&[
            0xe3, 0xb0, 0xc4, 0x42, 0x98, 0xfc, 0x1c, 0x14, 0x9a, 0xfb, 0xf4, 0xc8, 0x99, 0x6f,
            0xb9, 0x24, 0x27, 0xae, 0x41, 0xe4, 0x64, 0x9b, 0x93, 0x4c, 0xa4, 0x95, 0x99, 0x1b,
            0x78, 0x52, 0xb8, 0x55,
        ])
    );
}

#[test]
fn second_claim_on_the_same_url_is_refused() {
    assert!(matches!(acquire(Ok(()), true), Claim::Held));
    // Same URL while the first claim is held: a sharing violation.
    assert!(matches!(
        acquire(Err(fault(IoKind::Other, Some(32))), true),
        Claim::Taken
    ));
    assert!(matches!(
        acquire(Err(fault(IoKind::AlreadyExists, Some(17))), false),
        Claim::Taken
    ));
    assert!(matches!(
        acquire(Err(fault(IoKind::NotFound, Some(2))), true),
        Claim::Failed(_)
    ));
    // Off Windows that number is another failure altogether.
    assert!(matches!(
        acquire(Err(fault(IoKind::BrokenPipe, Some(32))), false),
        Claim::Failed(_)
    ));
}

// ---------------------------------------------------------------------- wire

#[test]
fn manager_errors_keep_their_category() {
    let not_found = Reply::refusal(&ManagerError::NotFound(3));
    assert!(matches!(
        not_found,
        Reply::Error {
            kind: ErrorKind::NotFound,
            ..
        }
    ));

    let wrong = Reply::refusal(&ManagerError::WrongState {
        id: 3,
        status: Status::Completed,
        action: "pause",
    });
    let Reply::Error { kind, message } = wrong else {
        panic!("expected an error");
    };
    assert_eq!(kind, ErrorKind::WrongState);
    // The message has to be worth showing, not just worth matching on.
    assert!(message.contains("Completed"), "{message}");

    let bad = Reply::refusal(&ManagerError::BadUrl { id: 3, url: "::".into() });
    assert!(matches!(bad, Reply::Error { kind: ErrorKind::Invalid, .. }));
}

#[test]
fn a_version_mismatch_says_what_to_do_about_it() {
    let Reply::Error { kind, message } = Reply::version_mismatch(99) else {
        panic!("expected an error");
    };
    assert_eq!(kind, ErrorKind::VersionMismatch);
    assert!(message.contains("start it again"), "{message}");
}

#[test]
fn an_add_request_keeps_the_headers_that_make_logins_work() {
    let mut headers = HeaderList::new();
    headers.insert("Cookie".into(), "session=abc".into());
    let mut add = add("https://example.com/a.iso");
    add.headers = headers;
    let call = Call { seq: 1, request: Request::Add(add) };
    let Request::Add(add) = call.clone().request else {
        panic!("expected an add");
    };
    assert_eq!(add.headers.get("Cookie").unwrap(), "session=abc");
    assert!(add.filename.is_none());
}

#[test]
fn headers_are_kept_in_order_and_once() {
    let mut headers = HeaderList::new();
    headers.insert("b".into(), "1".into());
    headers.insert("a".into(), "2".into());
    headers.insert("b".into(), "3".into());
    assert_eq!(headers.len(), 2);
    assert_eq!(
        headers.pairs(),
        &vec![("a".to_string(), "2".to_string()), ("b".to_string(), "3".to_string())]
    );
    assert!(headers.get("c").is_none());
    assert_eq!(headers.copied(), headers);
}

// -------------------------------------------------------------- adding checks

#[test]
fn refuses_schemes_that_are_not_downloads() {
    for bad in [
        "file:///C:/Windows/System32/config/SAM",
        "data:text/plain,hello",
        "blob:https://example.com/1234",
        "ftp://example.com/x",
        "javascript:alert(1)",
    ] {
        assert!(new_download(&add(bad)).is_err(), "{bad} must be refused");
    }
}

#[test]
fn strips_headers_the_engine_owns() {
    let mut request = add("https://example.com/a.bin");
    request.headers.insert("Cookie".to_string(), "keep=me".to_string());
    // The one that silently corrupts a segmented download.
    request.headers.insert("Accept-Encoding".to_string(), "gzip".to_string());

    let new = new_download(&request).unwrap();

    assert!(new.headers.get("accept-encoding").is_none());
    assert_eq!(new.headers.get("cookie").unwrap(), "keep=me");
}

#[test]
fn a_blank_filename_is_the_same_as_none() {
    let mut request = add("https://example.com/a.bin");
    request.filename = Some("   ".into());
    let new = new_download(&request).unwrap();
    assert!(new.filename.is_none());
    request.filename = Some("  a name.bin ".into());
    assert_eq!(new_download(&request).unwrap().filename.as_deref(), Some("a name.bin"));
}

#[test]
fn an_explicit_target_dir_survives() {
    let mut request = add("https://example.com/a.bin");
    request.target_dir = Some("D:\\somewhere".into());
    request.audio_url = Some("https://example.com/a.m4a".into());
    let new = new_download(&request).unwrap();
    assert_eq!(new.target_dir.unwrap(), "D:\\somewhere");
    assert_eq!(new.audio_url.unwrap(), "https://example.com/a.m4a");
    request.target_dir = Some("".into());
    assert!(new_download(&request).unwrap().target_dir.is_none());
}

#[test]
fn a_refused_url_is_told_why() {
    let said = |url: &str| new_download(&add(url)).err().unwrap();
    assert_eq!(said("ftp://example.com/x"), "FDM only handles http and https, not ftp:");
    assert!(said("no url").starts_with("not a valid URL: "), "{}", said("no url"));
}

// ------------------------------------------------------------------- pushing

#[test]
fn a_client_that_fell_behind_is_sent_the_whole_list() {
    let row = DownloadEntry::new(9, "https://example.com/a", "a".into(), 5);
    let first = forward(Feed::Lagged, vec![row.clone()]);
    assert_eq!(first, Some(EventMessage::Resync { downloads: vec![row.clone()] }));
    // And then it carries on rather than giving up on the client.
    assert_eq!(
        forward(Feed::Event(Event::Removed(9)), vec![]),
        Some(EventMessage::Removed { id: 9 })
    );
    assert_eq!(
        forward(Feed::Event(Event::Added(row.clone())), vec![]),
        Some(EventMessage::Added(row.clone()))
    );
    assert_eq!(
        forward(Feed::Event(Event::Changed(row.clone())), vec![]),
        Some(EventMessage::Changed(row))
    );
}

#[test]
fn the_forwarder_stops_when_the_manager_goes_away() {
    assert_eq!(forward(Feed::Closed, vec![]), None);
}

// -------------------------------------------------------------- conversations

/// One end of a connection each, and the list behind it.
struct Wire {
    session: Session,
    manager: Manager,
}

impl Wire {
    fn new() -> Wire {
        Wire { session: Session::new(), manager: Manager::new(1, vec![], 4) }
    }

    /// What the server answers, and whether the connection survives.
    fn answer(&mut self, call: Call) -> (ServerMessage, bool) {
        match self.session.converse(Received::Call(call), &welcome()) {
            SessionStep::Answer { seq, reply, last } => (ServerMessage::Reply { seq, reply }, !last),
            SessionStep::Ask { seq, request } => {
                let d = self.ask(request);
                (ServerMessage::Reply { seq, reply: d.reply }, true)
            }
            SessionStep::End(_) => panic!("the server must not just hang up"),
        }
    }

    fn ask(&mut self, request: Request) -> Dispatched {
        dispatch(request, &mut self.manager, 100, &vec![], &welcome())
    }

    fn connect(&mut self) -> Client {
        let hello = Client::hello();
        let seq = hello.seq;
        let (message, open) = self.answer(hello);
        assert!(open);
        let Awaited::Reply(reply) = await_reply(seq, Arrived::Message(message)) else {
            panic!("the greeting is answered");
        };
        Client::handshake(reply).ok().expect("handshake")
    }

    fn request(&mut self, client: &mut Client, request: Request) -> Reply {
        let call = client.request(request);
        let seq = call.seq;
        let (message, _) = self.answer(call);
        let Awaited::Reply(reply) = await_reply(seq, Arrived::Message(message)) else {
            panic!("the request is answered");
        };
        reply
    }
}

#[test]
fn the_welcome_describes_the_app_that_owns_the_downloads() {
    let mut wire = Wire::new();
    let client = wire.connect();
    assert_eq!(client.server(), &welcome());
}

#[test]
fn nothing_is_answered_before_hello() {
    let mut wire = Wire::new();
    let (message, open) = wire.answer(Call { seq: 7, request: Request::List });
    let ServerMessage::Reply { seq, reply } = message else {
        panic!("expected a reply");
    };
    assert_eq!(seq, 7, "a refusal still has to answer the request it refuses");
    let Reply::Error { kind, message } = reply else {
        panic!("a listing before hello must be refused");
    };
    assert_eq!(kind, ErrorKind::NotReady);
    assert!(message.contains("hello"), "{message}");
    assert!(!open);
}

#[test]
fn a_client_from_a_different_build_is_told_what_to_do() {
    let mut wire = Wire::new();
    let (message, open) = wire.answer(Call { seq: 1, request: Request::Hello { protocol: 999 } });
    let ServerMessage::Reply { reply, .. } = message else {
        panic!("expected a reply");
    };
    let Reply::Error { kind, message } = reply else {
        panic!("a version mismatch must be refused");
    };
    assert_eq!(kind, ErrorKind::VersionMismatch);
    assert!(message.contains("start it again"), "{message}");
    assert!(!open);
}

#[test]
fn the_client_reports_a_version_mismatch_as_a_refusal() {
    let err = Client::handshake(Reply::version_mismatch(999)).err().unwrap();
    assert!(matches!(
        err,
        ClientError::Refused { kind: ErrorKind::VersionMismatch, .. }
    ));
    let odd = Client::handshake(Reply::Done).err().unwrap();
    assert_eq!(odd.message(), "FDM replied with done where welcome was expected");
}

#[test]
fn a_second_hello_is_answered_rather_than_fatal() {
    let mut wire = Wire::new();
    let mut client = wire.connect();
    let reply = wire.request(&mut client, Request::Hello { protocol: PROTOCOL_VERSION });
    assert!(matches!(reply, Reply::Welcome { .. }));
    // And the connection is still good afterwards.
    let reply = wire.request(&mut client, Request::List);
    assert!(listed(reply).unwrap().is_empty());
}

#[test]
fn a_download_added_over_the_wire_lands_in_the_shared_list() {
    let mut wire = Wire::new();
    let mut client = wire.connect();
    let reply = wire.request(&mut client, Request::Add(add("http://127.0.0.1:1/one.bin")));
    let id = added(reply).unwrap();

    let row = wire.manager.get(id).expect("the row must be in the manager's list");
    assert_eq!(row.id, id);
    assert!(row.url.contains("one.bin"));
    assert_eq!(wire.manager.list().len(), 1);

    // And the client sees the same row the manager does.
    let reply = wire.request(&mut client, Request::Get { id });
    assert_eq!(entry(reply).unwrap().expect("visible over IPC too").id, id);
}

#[test]
fn a_url_that_is_not_a_download_is_refused_without_adding_a_row() {
    let mut wire = Wire::new();
    let mut client = wire.connect();
    let reply = wire.request(
        &mut client,
        Request::Add(add("file:///C:/Windows/System32/config/SAM")),
    );
    match added(reply).unwrap_err() {
        ClientError::Refused { kind, .. } => assert_eq!(kind, ErrorKind::Invalid),
        other => panic!("expected a refusal, got {other:?}"),
    }
    // The refusal has to happen before the row exists, not after.
    assert!(wire.manager.list().is_empty());
}

#[test]
fn asking_about_a_row_that_is_gone_is_a_question_not_an_error() {
    let mut wire = Wire::new();
    let mut client = wire.connect();
    let reply = wire.request(&mut client, Request::Get { id: 4242 });
    assert!(entry(reply).unwrap().is_none());
}

#[test]
fn acting_on_a_row_that_is_gone_says_so() {
    let mut wire = Wire::new();
    let mut client = wire.connect();
    for request in [
        Request::Pause { id: 4242 },
        Request::Resume { id: 4242 },
        Request::Cancel { id: 4242 },
        Request::Remove { id: 4242, delete_file: true },
    ] {
        let reply = wire.request(&mut client, request);
        match done(reply).unwrap_err() {
            ClientError::Refused { kind, .. } => assert_eq!(kind, ErrorKind::NotFound),
            other => panic!("expected not-found, got {other:?}"),
        }
    }
}

#[test]
fn a_bulk_request_reports_how_many_rows_it_touched() {
    let mut wire = Wire::new();
    let mut client = wire.connect();
    for i in 0..3 {
        let url = format!("http://127.0.0.1:1/{i}.bin");
        let reply = wire.request(&mut client, Request::Add(add(&url)));
        added(reply).unwrap();
    }
    let paused = wire.request(&mut client, Request::PauseAll);
    assert_eq!(paused, Reply::Count { n: 3 });
    let resumed = wire.ask(Request::ResumeAll);
    assert_eq!(resumed.reply, Reply::Count { n: 3 });
    assert_eq!(resumed.attempts.len(), 3);
    assert_eq!(resumed.events.len(), 3);
    assert!(resumed.save);
    let cleared = wire.request(&mut client, Request::ClearFinished);
    assert_eq!(cleared, Reply::Count { n: 0 });
}

#[test]
fn the_snapshot_and_the_subscription_are_one_request() {
    let mut wire = Wire::new();
    let mut client = wire.connect();
    let reply = wire.request(&mut client, Request::Add(add("http://127.0.0.1:1/early.bin")));
    let id = added(reply).unwrap();
    let d = wire.ask(Request::Subscribe);
    assert!(d.subscribe);
    assert!(
        listed(d.reply).unwrap().iter().any(|d| d.id == id),
        "the subscription's snapshot must include rows that already existed"
    );
}

#[test]
fn one_unreadable_request_does_not_cost_a_client_its_connection() {
    let mut wire = Wire::new();
    let mut client = wire.connect();
    match wire.session.converse(Received::Unreadable("expected value".into()), &welcome()) {
        SessionStep::Answer { seq, reply, last } => {
            assert_eq!(seq, 0);
            assert_eq!(
                reply,
                Reply::error(ErrorKind::Invalid, "unreadable request: expected value")
            );
            assert!(!last);
        }
        _ => panic!("expected a reply"),
    }
    // Still talking.
    let reply = wire.request(&mut client, Request::List);
    assert!(matches!(reply, Reply::List { .. }));
}

#[test]
fn a_client_that_hangs_up_mid_conversation_is_not_the_servers_problem() {
    let mut session = Session::new();
    assert!(matches!(
        session.converse(Received::Closed, &welcome()),
        SessionStep::End(Ok(()))
    ));
    assert!(matches!(
        session.converse(Received::Fault(fault(IoKind::BrokenPipe, None)), &welcome()),
        SessionStep::End(Ok(()))
    ));
    // A stream out of step cannot be recovered.
    assert!(matches!(
        session.converse(Received::Fault(fault(IoKind::InvalidData, None)), &welcome()),
        SessionStep::End(Err(_))
    ));
}

#[test]
fn a_client_waits_for_its_own_reply() {
    let event = ServerMessage::Event(EventMessage::Removed { id: 1 });
    assert!(matches!(await_reply(5, Arrived::Message(event.clone())), Awaited::Again));
    let stray = ServerMessage::Reply { seq: 4, reply: Reply::Done };
    match await_reply(5, Arrived::Message(stray.clone())) {
        Awaited::Failed(e) => {
            assert_eq!(e, ClientError::OutOfTurn { expected: 5, got: 4 });
            assert_eq!(e.message(), "FDM replied out of turn (expected #5, got #4)");
        }
        _ => panic!("that was not the answer"),
    }
    assert!(matches!(
        await_reply(5, Arrived::Fault(fault(IoKind::Other, Some(109)))),
        Awaited::Failed(ClientError::Closed)
    ));
    match await_reply(5, Arrived::Fault(fault(IoKind::InvalidData, None))) {
        Awaited::Failed(e) => assert_eq!(e.message(), "the connection to FDM failed: gone"),
        _ => panic!("a broken stream is no answer"),
    }
    assert_eq!(ClientError::NotRunning.message(), "FDM is not running");
    assert_eq!(
        ClientError::Closed.message(),
        "FDM closed the connection without answering"
    );

    assert!(matches!(next_event(Arrived::Message(stray)), Next::Again));
    assert!(matches!(next_event(Arrived::Message(event)), Next::Event(_)));
    assert!(matches!(next_event(Arrived::Closed), Next::Over));
    assert!(matches!(
        next_event(Arrived::Fault(fault(IoKind::ConnectionReset, None))),
        Next::Over
    ));
    assert!(matches!(
        next_event(Arrived::Fault(fault(IoKind::TimedOut, None))),
        Next::Failed(ClientError::Io(_))
    ));
}
