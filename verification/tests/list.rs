use fdm::categorize::Category;
use fdm::desktop::{add_download, download_dialog, get_config, open_file, open_folder};
use fdm::config::{default_download_root, default_temp_dir, EngineConfig};
use fdm::download::{DownloadOutcome, StartInfo};
use fdm::error::Error;
use fdm::header_list::HeaderList;
use fdm::link::Link;
use fdm::manager::{
    filename_from_url, Added, Begin, Manager, ManagerError, MediaProgress, Terminal,
    DEFAULT_MAX_ACTIVE,
};
use fdm::model::{DownloadEntry, Event, NewDownload, Status};
use fdm::naming::FilePath;
use fdm::progress::ProgressSnapshot;
use fdm::store::{Snapshot, Store, FORMAT_VERSION};

fn manager() -> Manager {
    Manager::new(1, vec![], DEFAULT_MAX_ACTIVE)
}

fn add(m: &mut Manager, url: &str) -> Added {
    m.add(NewDownload::new(Link::parse(url).unwrap()), 100)
}

fn start_info(name: &str) -> StartInfo {
    StartInfo {
        target: FilePath::new("/root/Compressed", name),
        part: FilePath::new("/tmp", "x.part"),
        control: FilePath::new("/tmp", "x.part.fdm"),
        total: Some(1000),
        resumed: false,
        used_ranges: true,
        category: Category::Compressed,
    }
}

fn progress(downloaded: u64) -> ProgressSnapshot {
    ProgressSnapshot {
        downloaded,
        total: Some(1000),
        speed_bits: 42,
        active_connections: 3,
        segments: 4,
        eta_secs: Some(9),
        elapsed_ms: 100,
    }
}

fn outcome(name: &str) -> DownloadOutcome {
    DownloadOutcome {
        path: FilePath::new("/root/Compressed", name),
        bytes: 1000,
        elapsed_ms: 500,
        segments_used: 4,
        category: Category::Compressed,
        resumed: false,
        used_ranges: true,
    }
}

/// Run an attempt to the point where bytes move.
fn run(m: &mut Manager, a: &Added) {
    assert!(matches!(m.begin(&a.attempt), Begin::Run(_)));
    assert!(m.on_start(a.id, a.attempt.generation, &start_info("a.zip")).is_some());
    assert!(m.on_progress(a.id, a.attempt.generation, &progress(400)).is_some());
}

fn status(m: &Manager, id: u64) -> Status {
    m.get(id).unwrap().status
}

// --------------------------------------------------------------------- store

fn entry(id: u64, status: Status) -> DownloadEntry {
    let mut e = DownloadEntry::new(id, "https://example.com/f.bin", "f.bin".into(), 1);
    e.status = status;
    e
}

#[test]
fn round_trips_a_list() {
    let mut row = entry(1, Status::Completed);
    row.downloaded = 4096;
    row.total = Some(4096);
    let (next, back) = Store::load(Some(Store::snapshot(9, vec![row])));
    assert_eq!(next, 9);
    assert_eq!(back.len(), 1);
    assert_eq!(back[0].status, Status::Completed);
    assert_eq!(back[0].downloaded, 4096);
}

#[test]
fn a_missing_file_is_an_empty_list_not_an_error() {
    let (next, entries) = Store::load(None);
    assert_eq!(next, 1);
    assert!(entries.is_empty());
}

#[test]
fn interrupted_downloads_come_back_as_paused() {
    let mut running = entry(3, Status::Downloading);
    running.speed_bits = 5_000_000.0f64.to_bits();
    running.active_connections = 8;
    let saved = Store::snapshot(
        4,
        vec![running, entry(4, Status::Queued), entry(5, Status::Completed)],
    );

    let (_, back) = Store::load(Some(saved));
    // Nothing is running after a restart, so nothing may claim to be.
    assert_eq!(back[0].status, Status::Paused);
    assert_eq!(f64::from_bits(back[0].speed_bits), 0.0);
    assert_eq!(back[0].active_connections, 0);
    assert_eq!(back[1].status, Status::Paused);
    // A finished download is untouched.
    assert_eq!(back[2].status, Status::Completed);
}

#[test]
fn next_id_can_never_collide_with_a_saved_row() {
    // A next_id that contradicts the entries — hand-edited file, or a bug.
    let (next, _) = Store::load(Some(Store::snapshot(2, vec![entry(7, Status::Completed)])));
    assert_eq!(next, 8, "reusing id 2..7 would overwrite an existing row");
}

#[test]
fn a_file_from_a_future_version_is_discarded_not_guessed_at() {
    let (next, entries) = Store::load(Some(Snapshot {
        version: 999,
        next_id: 5,
        entries: vec![],
    }));
    assert_eq!(next, 1);
    assert!(entries.is_empty());
    assert_eq!(Store::snapshot(5, vec![]).version, FORMAT_VERSION);
}

#[test]
fn the_list_lives_in_local_data() {
    assert_eq!(Store::new("/x/downloads.json").path(), "/x/downloads.json");
    assert_eq!(
        Store::default_path(Some("L"), Some("H"), "T"),
        vec!["L", "FDM", "downloads.json"]
    );
    assert_eq!(
        Store::default_path(None, Some("H"), "T"),
        vec!["H", "AppData\\Local", "FDM", "downloads.json"]
    );
    assert_eq!(
        Store::default_path(None, Some(""), "T"),
        vec!["T", "FDM", "downloads.json"]
    );
    assert_eq!(default_download_root(Some("H")), vec!["H", "Downloads", "FDM"]);
    assert_eq!(default_download_root(None), vec!["."]);
    assert_eq!(default_temp_dir(Some("L"), None, "T"), vec!["L", "FDM", "Temp"]);
    assert_eq!(default_temp_dir(Some(""), Some("H"), "T"), vec!["H", ".cache", "FDM", "Temp"]);
    assert_eq!(default_temp_dir(None, None, "T"), vec!["T", "FDM"]);
}

// ------------------------------------------------------------------- the list

#[test]
fn a_download_completes_and_lands_sorted_by_type() {
    let mut m = manager();
    let a = add(&mut m, "https://example.com/archive.zip");
    assert_eq!(m.get(a.id).unwrap().filename, "archive.zip");
    assert_eq!(status(&m, a.id), Status::Queued);
    run(&mut m, &a);
    let row = m.get(a.id).unwrap();
    assert_eq!(row.status, Status::Downloading);
    assert_eq!(row.downloaded, 400);
    assert_eq!(row.filename, "a.zip");

    let c = m.finalise(a.id, a.attempt.generation, Terminal::of(Ok(outcome("a.zip"))), false, 200);
    assert!(c.delete.is_none());
    let row = m.get(a.id).unwrap();
    assert_eq!(row.status, Status::Completed);
    assert_eq!(row.downloaded, 1000);
    assert_eq!(row.total, Some(1000));
    assert_eq!(row.path, Some(FilePath::new("/root/Compressed", "a.zip")));
    assert_eq!(row.finished_at, Some(200));
    assert!(row.error.is_none());
}

#[test]
fn pause_keeps_the_partial_data_and_resume_finishes_the_job() {
    let mut m = manager();
    let a = add(&mut m, "https://example.com/big.iso");
    run(&mut m, &a);
    m.pause(a.id, true).unwrap();
    let paused = m.get(a.id).unwrap();
    assert_eq!(paused.status, Status::Paused);
    assert_eq!(f64::from_bits(paused.speed_bits), 0.0);
    assert!(paused.downloaded > 0);
    assert!(m.must_stop(a.id, a.attempt.generation));

    let c = m.finalise(a.id, a.attempt.generation, Terminal::of(Err(Error::Cancelled)), true, 200);
    assert!(c.discard.part.is_none() && c.discard.control.is_none(), "pause deletes nothing");
    assert!(m.get(a.id).unwrap().resumable);

    let again = m.resume(a.id).unwrap();
    assert_ne!(again.attempt.generation, a.attempt.generation);
    assert!(matches!(m.begin(&again.attempt), Begin::Run(_)));
    m.finalise(a.id, again.attempt.generation, Terminal::of(Ok(outcome("a.zip"))), false, 300);
    assert_eq!(status(&m, a.id), Status::Completed);
}

#[test]
fn resuming_the_instant_pause_returns_does_not_lose_the_download() {
    let mut m = manager();
    let a = add(&mut m, "https://example.com/racy.bin");
    run(&mut m, &a);
    m.pause(a.id, true).unwrap();
    let again = m.resume(a.id).unwrap();
    // The paused attempt only finishes now. It must not be able to write.
    assert!(!m.is_current(a.id, a.attempt.generation));
    m.finalise(a.id, a.attempt.generation, Terminal::of(Err(Error::Cancelled)), true, 200);
    assert!(m.on_progress(a.id, a.attempt.generation, &progress(1)).is_none());
    assert_eq!(status(&m, a.id), Status::Queued);
    assert!(matches!(m.begin(&again.attempt), Begin::Run(_)));
    m.finalise(a.id, again.attempt.generation, Terminal::of(Ok(outcome("a.zip"))), false, 300);
    // And the ghost cannot come back later and undo it.
    m.finalise(a.id, a.attempt.generation, Terminal::of(Err(Error::Cancelled)), true, 400);
    assert_eq!(status(&m, a.id), Status::Completed);
}

#[test]
fn pausing_a_queued_download_reports_paused_immediately() {
    let mut m = manager();
    let a = add(&mut m, "https://example.com/second.bin");
    m.pause(a.id, false).unwrap();
    assert_eq!(status(&m, a.id), Status::Paused);
    // And it must not sneak into running once a slot is free.
    assert!(matches!(m.begin(&a.attempt), Begin::Stopped(_)));
    assert_eq!(status(&m, a.id), Status::Paused);
    assert_eq!(m.get(a.id).unwrap().downloaded, 0);
}

#[test]
fn pause_is_rejected_on_a_finished_download() {
    let mut m = manager();
    let a = add(&mut m, "https://example.com/small.txt");
    run(&mut m, &a);
    m.finalise(a.id, a.attempt.generation, Terminal::of(Ok(outcome("a.zip"))), false, 200);
    let refused = m.pause(a.id, false).unwrap_err();
    assert!(matches!(refused, ManagerError::WrongState { .. }));
    assert!(m.resume(a.id).is_err(), "a completed download has nothing to resume");
    assert_eq!(m.pause(9999, false).unwrap_err(), ManagerError::NotFound(9999));
}

#[test]
fn cancel_throws_the_partial_data_away() {
    let mut m = manager();
    let a = add(&mut m, "https://example.com/junk.bin");
    run(&mut m, &a);
    let c = m.cancel(a.id, 150).unwrap();
    assert!(c.discard.part.is_none(), "the engine still holds the file");
    assert_eq!(status(&m, a.id), Status::Cancelled);
    let c = m.finalise(a.id, a.attempt.generation, Terminal::of(Err(Error::Cancelled)), true, 200);
    assert_eq!(c.discard.part, Some(FilePath::new("/tmp", "x.part")));
    assert_eq!(c.discard.control, Some(FilePath::new("/tmp", "x.part.fdm")));
    let row = m.get(a.id).unwrap();
    assert_eq!(row.status, Status::Cancelled);
    assert!(!row.resumable, "there is nothing left to resume from");
    assert_eq!(f64::from_bits(row.speed_bits), 0.0);
}

#[test]
fn removing_a_finished_download_can_keep_or_delete_the_file() {
    for delete_file in [false, true] {
        let mut m = manager();
        let a = add(&mut m, "https://example.com/keep.zip");
        run(&mut m, &a);
        m.finalise(a.id, a.attempt.generation, Terminal::of(Ok(outcome("a.zip"))), false, 200);
        let c = m.remove(a.id, delete_file).unwrap();
        assert!(m.get(a.id).is_none(), "the row is gone");
        assert_eq!(c.delete.is_some(), delete_file);
        assert!(matches!(c.event, Some(Event::Removed(id)) if id == a.id));
    }
}

#[test]
fn removing_a_running_download_waits_for_the_file_handle() {
    let mut m = manager();
    let a = add(&mut m, "https://example.com/gone.bin");
    run(&mut m, &a);
    let c = m.remove(a.id, true).unwrap();
    assert!(c.event.is_none());
    assert!(m.get(a.id).is_some());
    let c = m.finalise(a.id, a.attempt.generation, Terminal::of(Err(Error::Cancelled)), true, 200);
    assert!(m.get(a.id).is_none());
    assert_eq!(c.discard.part, Some(FilePath::new("/tmp", "x.part")));
    assert!(matches!(c.event, Some(Event::Removed(_))));
}

#[test]
fn the_list_keeps_the_order_downloads_were_added_in() {
    let mut m = manager();
    let ids: Vec<u64> = (0..5)
        .map(|i| add(&mut m, &format!("https://example.com/f{i}.bin")).id)
        .collect();
    assert_eq!(m.list().iter().map(|e| e.id).collect::<Vec<_>>(), ids);
    for id in &ids {
        m.cancel(*id, 1).unwrap();
    }
    assert_eq!(m.clear_finished().len(), 5);
    assert!(m.list().is_empty());
    assert_eq!(add(&mut m, "https://example.com/x").id, 6, "ids are never reused");
}

#[test]
fn pause_all_then_resume_all_finishes_everything() {
    let mut m = manager();
    for i in 0..4 {
        add(&mut m, &format!("https://example.com/all{i}.bin"));
    }
    assert_eq!(m.pause_all(&vec![2]).len(), 4);
    assert!(m.list().iter().all(|e| e.status == Status::Paused));
    assert_eq!(m.resume_all().len(), 4);
    assert!(m.list().iter().all(|e| e.status == Status::Queued));
}

#[test]
fn a_download_killed_mid_flight_comes_back_paused_not_downloading() {
    let mut m = manager();
    let a = add(&mut m, "https://example.com/crash.bin");
    run(&mut m, &a);
    let (next, rows) = Store::load(Some(Store::snapshot(m.next_id(), m.list())));
    let mut back = Manager::new(next, rows, DEFAULT_MAX_ACTIVE);
    let row = back.get(a.id).unwrap();
    assert_eq!(row.status, Status::Paused);
    assert_eq!(row.active_connections, 0);
    assert_eq!(row.downloaded, 400);
    // And it is genuinely recoverable.
    let again = back.resume(a.id).unwrap();
    assert_eq!(again.attempt.url.text, "https://example.com/crash.bin");
    assert!(matches!(back.begin(&again.attempt), Begin::Run(_)));
}

#[test]
fn a_failed_download_records_why_and_can_be_retried() {
    let mut m = manager();
    let a = add(&mut m, "http://127.0.0.1:1/nope.bin");
    assert!(matches!(m.begin(&a.attempt), Begin::Run(_)));
    m.finalise(a.id, a.attempt.generation, Terminal::of(Err(Error::Status(404))), false, 200);
    let failed = m.get(a.id).unwrap();
    assert_eq!(failed.status, Status::Failed);
    assert_eq!(failed.error.as_deref(), Some("server returned status 404"));
    assert!(m.resume(a.id).is_ok());
    assert!(m.get(a.id).unwrap().error.is_none());
}

#[test]
fn a_row_whose_url_no_longer_parses_cannot_resume() {
    let mut broken = DownloadEntry::new(1, "not a url", "x".into(), 1);
    broken.status = Status::Paused;
    let mut m = Manager::new(2, vec![broken], 4);
    assert!(matches!(m.resume(1), Err(ManagerError::BadUrl { .. })));
    assert_eq!(status(&m, 1), Status::Paused);
}

#[test]
fn media_downloads_report_through_their_row() {
    let mut m = manager();
    let a = add(&mut m, "https://www.youtube.com/watch?v=jNQXAC9IVRw");
    assert!(matches!(m.begin(&a.attempt), Begin::Run(_)));
    let g = a.attempt.generation;
    assert!(m.on_media_start(a.id, g, Category::Video).is_some());
    let p = MediaProgress {
        downloaded: 10,
        total: Some(20),
        speed_bits: 7,
        eta_secs: Some(3),
        connections: 8,
    };
    assert!(m.on_media_progress(a.id, g, &p).is_some());
    let row = m.get(a.id).unwrap();
    assert_eq!((row.downloaded, row.total, row.eta_secs), (10, Some(20), Some(3)));
    m.on_media_file(a.id, g, &FilePath::new("/v", "zoo.mp4"), 99);
    let row = m.get(a.id).unwrap();
    assert_eq!((row.filename.as_str(), row.downloaded, row.total), ("zoo.mp4", 99, Some(99)));
    // A superseded attempt changes nothing.
    assert!(m.on_media_progress(a.id, g + 1, &p).is_none());
}

#[test]
fn a_placeholder_name_comes_from_the_url() {
    let name = |u: &str| filename_from_url(&Link::parse(u).unwrap());
    assert_eq!(name("https://example.com/a%20b.zip?x=1"), "a b.zip");
    assert_eq!(name("https://example.com/"), "download");
    assert_eq!(name("https://example.com/%FF.bin"), "\u{fffd}.bin");
}

#[test]
fn status_is_one_thing_at_a_time() {
    for s in [Status::Queued, Status::Connecting, Status::Downloading] {
        assert!(s.is_active() && !s.is_finished());
    }
    for s in [Status::Completed, Status::Cancelled] {
        assert!(!s.is_active() && s.is_finished());
    }
    assert!(!Status::Paused.is_active() && !Status::Paused.is_finished());
    assert_eq!(Status::Completed.label(), "Completed");
}

// ----------------------------------------------------------------- the window

#[test]
fn the_window_adds_what_parses() {
    let mut m = manager();
    let mut headers = HeaderList::new();
    headers.insert("Range".into(), "bytes=0-1".into());
    headers.insert("Referer".into(), "https://example.com/".into());
    let a = add_download(&mut m, "https://example.com/w.bin", &headers, 5).unwrap();
    assert_eq!(m.get(a.id).unwrap().filename, "w.bin");
    match m.begin(&a.attempt) {
        Begin::Run(request) => {
            assert!(request.headers.get("range").is_none());
            assert_eq!(request.headers.get("referer").unwrap(), "https://example.com/");
        }
        _ => panic!("the attempt is current"),
    }
    assert!(add_download(&mut m, "nonsense", &headers, 5).is_err());
    assert_eq!(m.list().len(), 1);
    // The window takes any scheme that parses; only the pipe refuses them.
    assert!(add_download(&mut m, "ftp://example.com/x", &headers, 5).is_ok());
}

#[test]
fn the_window_shows_the_settings_in_force() {
    let mut m = manager();
    m.set_max_active(9);
    let mut cfg = EngineConfig::new("/r", "/t");
    cfg.use_temp_dir = false;
    let info = get_config(&cfg, &m);
    assert_eq!(info.max_active, 9);
    assert_eq!(info.max_connections, 64);
    assert_eq!((info.download_root.as_str(), info.temp_dir.as_str()), ("/r", "/t"));
    assert!(!info.use_temp_dir);
    assert_eq!(
        download_dialog(12),
        ("download-dialog-12".to_string(), "download_dialog.html?id=12".to_string())
    );
}

#[test]
fn a_finished_file_is_opened_or_shown_in_its_folder() {
    let path = r"C:\Downloads\a.zip";
    let launch = open_file(path, true).unwrap();
    assert_eq!(launch.program, "cmd");
    assert_eq!(launch.args, ["/C", "start", "", path]);
    assert!(open_file(path, false).is_none());

    let shown = open_folder(path, true, true, Some(r"C:\Downloads")).unwrap();
    assert_eq!(shown.program, "explorer");
    assert_eq!(shown.args, ["/select,", path]);
    let gone = open_folder(path, true, false, Some(r"C:\Downloads")).unwrap();
    assert_eq!(gone.args, [r"C:\Downloads"]);
    assert!(open_folder("a.zip", true, false, None).is_none());
    assert!(open_folder(path, false, true, Some(r"C:\Downloads")).is_none());
}

/// Do to a copy of the rows what an event says.
fn watch(shown: &mut Vec<DownloadEntry>, event: &Event) {
    match event {
        Event::Added(e) | Event::Changed(e) => match shown.iter_mut().find(|s| s.id == e.id) {
            Some(row) => *row = e.clone(),
            None => shown.push(e.clone()),
        },
        Event::Removed(id) => shown.retain(|s| s.id != *id),
    }
}

#[test]
fn events_describe_every_transition() {
    let mut m = manager();
    let mut shown: Vec<DownloadEntry> = Vec::new();

    let a = add(&mut m, "https://example.com/watched.zip");
    match &a.event {
        Event::Added(e) => {
            assert_eq!(e.id, a.id);
            assert_eq!(e.status, Status::Queued);
        }
        other => panic!("no Added event: {other:?}"),
    }
    watch(&mut shown, &a.event);
    assert_eq!(shown, m.list());

    let generation = a.attempt.generation;
    assert!(matches!(m.begin(&a.attempt), Begin::Run(_)));
    let started = m.on_start(a.id, generation, &start_info("watched.zip")).unwrap();
    match &started {
        Event::Changed(e) => {
            assert_eq!(e.status, Status::Downloading);
            assert_eq!(e.filename, "watched.zip");
            assert!(e.path.is_some());
        }
        other => panic!("no Downloading event: {other:?}"),
    }
    watch(&mut shown, &started);
    assert_eq!(shown, m.list());

    // Missed: the next event about the row makes up for it.
    let _ = m.on_progress(a.id, generation, &progress(400)).unwrap();

    let done = m.finalise(a.id, generation, Terminal::Done(outcome("watched.zip")), false, 200);
    let done = done.event.unwrap();
    assert!(matches!(&done, Event::Changed(e) if e.status == Status::Completed));
    watch(&mut shown, &done);
    watch(&mut shown, &done);
    assert_eq!(shown, m.list());

    let removed = m.remove(a.id, true).unwrap().event.unwrap();
    assert!(matches!(&removed, Event::Removed(gone) if *gone == a.id));
    watch(&mut shown, &removed);
    assert!(shown.is_empty());
    assert!(m.list().is_empty());
}

#[test]
fn bulk_events_keep_a_watcher_in_step() {
    let mut m = manager();
    for name in ["a", "b", "c"] {
        let _ = add(&mut m, &format!("https://example.com/{name}.bin"));
    }
    let mut shown = m.list();
    for event in m.pause_all(&vec![1, 2, 3]) {
        watch(&mut shown, &event);
    }
    assert_eq!(shown, m.list());
    for resumed in m.resume_all() {
        watch(&mut shown, &resumed.event);
    }
    assert_eq!(shown, m.list());
    for id in [1, 3] {
        let cancelled = m.cancel(id, 300).unwrap();
        watch(&mut shown, &cancelled.event);
    }
    for cleanup in m.clear_finished() {
        watch(&mut shown, &cleanup.event.unwrap());
    }
    assert_eq!(shown, m.list());
    assert_eq!(shown.len(), 1);
}

#[test]
fn the_list_survives_a_restart_and_resumes_where_it_stopped() {
    let url = "https://example.com/survivor.bin";
    let mut m = manager();
    let a = add(&mut m, url);
    assert!(matches!(m.begin(&a.attempt), Begin::Run(_)));
    assert!(m.on_start(a.id, a.attempt.generation, &start_info("survivor.bin")).is_some());
    assert!(m.on_progress(a.id, a.attempt.generation, &progress(400)).is_some());
    m.pause(a.id, true).unwrap();
    assert_eq!(status(&m, a.id), Status::Paused);

    let (next, entries) = Store::load(Some(Store::snapshot(m.next_id(), m.list())));
    let mut m = Manager::new(next, entries, DEFAULT_MAX_ACTIVE);

    let restored = m.get(a.id).unwrap();
    assert_eq!(restored.status, Status::Paused);
    assert_eq!(restored.url, url);
    assert_eq!(restored.filename, "survivor.bin");
    assert!(restored.path.is_some());
    assert!(restored.downloaded > 0 && restored.downloaded < 1000);

    let resumed = m.resume(a.id).unwrap();
    assert_eq!(resumed.attempt.filename.as_deref(), Some("survivor.bin"));
    assert_eq!(resumed.attempt.target_dir.as_deref(), Some("/root/Compressed"));
    let generation = resumed.attempt.generation;
    let end = Terminal::Done(outcome("survivor.bin"));
    let _ = m.finalise(a.id, generation, end, false, 400);
    assert_eq!(status(&m, a.id), Status::Completed);
}

#[test]
fn headers_do_not_survive_a_restart() {
    let mut list = HeaderList::new();
    list.insert("Cookie".to_string(), "session=abc".to_string());
    let mut m = manager();
    let a = add_download(&mut m, "https://example.com/a.bin", &list, 1).unwrap();
    match m.begin(&a.attempt) {
        Begin::Run(req) => assert_eq!(req.headers["cookie"], "session=abc"),
        _ => panic!("the attempt should run"),
    }
    m.pause(a.id, false).unwrap();

    let (next, entries) = Store::load(Some(Store::snapshot(m.next_id(), m.list())));
    let mut m = Manager::new(next, entries, DEFAULT_MAX_ACTIVE);
    let again = m.resume(a.id).unwrap();
    match m.begin(&again.attempt) {
        Begin::Run(req) => assert!(req.headers.is_empty()),
        _ => panic!("the attempt should run"),
    }
}

#[test]
fn a_cancel_knows_the_files_of_an_earlier_attempt() {
    let mut m = manager();
    let a = add(&mut m, "https://example.com/a.zip");
    run(&mut m, &a);
    m.pause(a.id, true).unwrap();
    let again = m.resume(a.id).unwrap();
    m.pause(a.id, true).unwrap();
    let gone = m.cancel(a.id, 5).unwrap();
    assert_eq!(gone.discard.part, Some(FilePath::new("/tmp", "x.part")));
    assert_eq!(gone.discard.control, Some(FilePath::new("/tmp", "x.part.fdm")));
    assert!(m.is_current(a.id, again.attempt.generation));
}

#[test]
fn only_a_failed_row_says_why_it_failed() {
    let mut m = manager();
    let a = add(&mut m, "https://example.com/a.zip");
    run(&mut m, &a);
    let fault = || Terminal::Failed(Error::other("disk full"));
    let _ = m.finalise(a.id, a.attempt.generation, fault(), true, 5);
    assert!(m.get(a.id).unwrap().error.is_some());
    m.cancel(a.id, 6).unwrap();
    let row = m.get(a.id).unwrap();
    assert_eq!((row.status, row.error, row.resumable), (Status::Cancelled, None, false));

    let again = m.resume(a.id).unwrap();
    let _ = m.finalise(a.id, again.attempt.generation, fault(), true, 7);
    assert!(m.on_media_start(a.id, again.attempt.generation, Category::Video).is_some());
    assert_eq!(m.get(a.id).unwrap().error, None);
    let _ = m.finalise(a.id, again.attempt.generation, fault(), true, 8);
    let _ = m.finalise(a.id, again.attempt.generation, Terminal::Stopped, true, 9);
    let row = m.get(a.id).unwrap();
    assert_eq!((row.status, row.error), (Status::Paused, None));
}

#[test]
fn the_list_is_staged_beside_its_file() {
    assert_eq!(Store::staging_name("downloads.json"), "downloads.json.tmp");
    assert_eq!(Store::staging_name("list"), "list.json.tmp");
    assert_eq!(Store::staging_name("a.b.json"), "a.b.json.tmp");
    assert_eq!(Store::staging_name(".."), "..");
}
