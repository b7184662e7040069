use fdm::categorize::Category;
use fdm::error::Error;
use fdm::media::{
    category_of, choose_fetcher, fetch_args, find_tool, format_arg, install_dirs, is_audio, is_media,
    is_platform_page, is_video_platform, judge_exit, media_dir, media_outcome, newest, on_line,
    parse_eta_str, parse_line, parse_speed_str, resolve_args, resolved_stream, tool_places,
    Fetcher, MediaFile, Speed, Stream, Tracks,
};
use fdm::naming::FilePath;

fn speed(number: &str, scale: u64) -> Option<Speed> {
    Some(Speed { number: number.into(), scale })
}

#[test]
fn video_pages_are_told_from_files() {
    for page in [
        "https://www.youtube.com/watch?v=1",
        "HTTPS://WWW.YOUTUBE.COM/SHORTS/1",
        "https://youtu.be/1",
        "https://www.instagram.com/reel/1",
        "https://x.com/a/status/1",
    ] {
        assert!(is_video_platform(page), "{page}");
    }
    assert!(!is_video_platform("https://example.com/movie.mp4"));
    assert!(!is_video_platform("https://youtube.com/about"));
    // The Kelvin sign is a k in lower case.
    assert!(is_video_platform("https://ti\u{212a}to\u{212a}.com/1"));
    assert!(!is_platform_page("https://WWW.YOUTUBE.COM/WATCH"));
}

#[test]
fn speeds_are_read_by_their_unit() {
    assert_eq!(parse_speed_str(" 1.43MiB/s "), speed("1.43", 1024 * 1024));
    assert_eq!(parse_speed_str("2gb/s"), speed("2", 1024 * 1024 * 1024));
    assert_eq!(parse_speed_str("7 KiB/s"), speed("7", 1024));
    assert_eq!(parse_speed_str("12B/s"), speed("12", 1));
    assert_eq!(parse_speed_str("Unknown B/s"), speed("UNKNOWN", 1));
    assert_eq!(parse_speed_str("N/A"), None);
}

#[test]
fn times_are_read_with_and_without_hours() {
    assert_eq!(parse_eta_str("00:05"), Some(5));
    assert_eq!(parse_eta_str(" 02:05 "), Some(125));
    assert_eq!(parse_eta_str("1:02:05"), Some(3725));
    assert_eq!(parse_eta_str("UNKNOWN"), None);
    assert_eq!(parse_eta_str("NA"), None);
    assert_eq!(parse_eta_str(""), None);
    assert_eq!(parse_eta_str("5"), None);
    assert_eq!(parse_eta_str("x:05"), None);
    assert_eq!(parse_eta_str("18446744073709551615:59"), None);
}

#[test]
fn a_progress_line_keeps_the_colons_of_its_time() {
    let l = parse_line("FDM_PROG: 1024:4096:1.00MiB/s:00:03").unwrap();
    assert_eq!((l.downloaded, l.total), (1024, Some(4096)));
    assert_eq!((l.speed.as_str(), l.eta.as_str()), ("1.00MiB/s", "00:03"));
    let l = parse_line("FDM_PROG:NA:NA:Unknown:Unknown").unwrap();
    assert_eq!((l.downloaded, l.total), (0, None));
    assert!(parse_line("[download] Destination: x.mp4").is_none());
    assert!(parse_line("FDM_PROG:1:2:3").is_none());
}

#[test]
fn progress_runs_on_over_the_tracks() {
    let mut t = Tracks::new();
    assert_eq!(t.take(100, Some(1000)), (100, Some(1000)));
    assert_eq!(t.take(1000, Some(1000)), (1000, Some(1000)));
    // The audio track begins: nothing falls back.
    assert_eq!(t.take(10, Some(200)), (1010, Some(1200)));
    assert_eq!(t.take(200, Some(200)), (1200, Some(1200)));
    // A size that was too low is lifted.
    assert_eq!(t.take(300, Some(200)), (1300, Some(1300)));
    let mut unsized_track = Tracks::new();
    assert_eq!(unsized_track.take(5, None), (5, None));
}

#[test]
fn a_row_is_updated_only_so_often() {
    let mut t = Tracks::new();
    assert!(on_line(&mut t, "FDM_PROG:10:100:1KiB/s:00:09", 49).is_none());
    assert_eq!(t.seen, 10);
    let r = on_line(&mut t, "FDM_PROG:20:100:1KiB/s:00:08", 50).unwrap();
    assert_eq!((r.downloaded, r.total, r.eta_secs), (20, Some(100), Some(8)));
    assert_eq!(r.speed, speed("1", 1024));
    assert!(on_line(&mut t, "[Merger] done", 1000).is_none());
}

#[test]
fn the_name_chooses_the_format() {
    assert!(is_audio(&Some("song (Audio)".into())));
    assert!(is_audio(&Some("song.mp3".into())));
    assert!(!is_audio(&Some("clip.mp4".into())));
    assert!(!is_audio(&None));
    assert_eq!(format_arg(&Some("song.m4a".into())), "bestaudio[ext=m4a]/bestaudio/best");
    assert_eq!(
        format_arg(&Some("clip 720p 1080P.mp4".into())),
        "bestvideo[height<=1080][ext=mp4]+bestaudio[ext=m4a]/bestvideo[height<=1080]+bestaudio/best[height<=1080]/bestvideo+bestaudio/best"
    );
    assert_eq!(
        format_arg(&None),
        "bestvideo[ext=mp4]+bestaudio[ext=m4a]/bestvideo+bestaudio/best"
    );
    assert_eq!((category_of(true), category_of(false)), (Category::Music, Category::Video));
}

#[test]
fn the_tool_is_told_everything() {
    let args = fetch_args(
        "https://youtu.be/1",
        "/v",
        &None,
        8,
        &Some("/d/deno".into()),
        &Some("/f".into()),
    );
    assert_eq!(args.len(), 16);
    assert_eq!(args[5..7], ["-N".to_string(), "8".to_string()]);
    assert_eq!(args[10], "/v/%(title)s.%(ext)s");
    assert_eq!(
        args[11..],
        ["--js-runtimes", "deno:/d/deno", "--ffmpeg-location", "/f", "https://youtu.be/1"]
    );
    assert_eq!(
        resolve_args("u", &None),
        vec!["-g", "--get-filename", "-o", "%(title)s.%(ext)s", "-f", "b/best", "u"]
    );
    assert_eq!(media_dir(&Some("/t".into()), Some("/h"), false), vec!["/t"]);
    assert_eq!(media_dir(&None, Some("/h"), true), vec!["/h", "Downloads", "FDM", "Music"]);
    assert_eq!(media_dir(&None, None, false), vec![".", "Downloads", "FDM", "Video"]);
}

#[test]
fn the_tools_output_names_the_stream() {
    let both = resolved_stream(b"https://cdn.test/v\r\n\n  Zoo \xff.mp4\n", &None);
    assert_eq!(
        both,
        Some(Stream {
            url: "https://cdn.test/v".into(),
            filename: Some("Zoo \u{fffd}.mp4".into()),
        })
    );
    let one = resolved_stream(b"https://cdn.test/v\n", &Some("given".into()));
    assert_eq!(one.unwrap().filename.as_deref(), Some("given"));
    assert_eq!(resolved_stream(b" \n\n", &None), None);
}

#[test]
fn the_newest_media_file_is_the_result() {
    let file = |name: &str, modified: i128| MediaFile { name: name.into(), modified };
    let files = vec![
        file("old.mp4", 1),
        file("new.mkv", 9),
        file("tie.webm", 9),
        file("newer.txt", 99),
    ];
    assert_eq!(newest(&files), Some(1));
    assert_eq!(newest(&vec![file("a.txt", 1)]), None);
    assert!(is_media("x.m4a") && !is_media("x.MP4") && !is_media("mp4"));
}

#[test]
fn the_end_of_the_tool_is_judged() {
    assert_eq!(judge_exit(true, true), Ok(()));
    assert_eq!(judge_exit(false, true), Err(Error::Cancelled));
    assert_eq!(judge_exit(false, false).unwrap_err().message(), "Video download failed");
    let o = media_outcome(FilePath::new("/v", "a.mp4"), 5, 6, 7, false);
    assert_eq!((o.bytes, o.elapsed_ms, o.segments_used), (5, 6, 7));
    assert_eq!(o.category, Category::Video);
    assert!(!o.resumed && o.used_ranges);
}

#[test]
fn tools_are_looked_for_in_order() {
    let places = tool_places(
        &Some("/exe".into()),
        &Some("/local".into()),
        &install_dirs(),
        &vec!["/usr/bin".to_string()],
        "deno.exe",
    );
    assert_eq!(places[0], vec!["/exe", "tools", "deno.exe"]);
    assert_eq!(places[1], vec!["/exe", "deno.exe"]);
    assert_eq!(places[2], vec!["/local", "FDM", "tools", "deno.exe"]);
    assert_eq!(places.len(), 7);
    assert_eq!(places[6], vec!["/usr/bin", "deno.exe"]);
    assert_eq!(find_tool(&places, |p: &Vec<String>| p.len() == 2), Some(1));
    assert_eq!(find_tool(&places, |_: &Vec<String>| false), None);
}

#[test]
fn a_video_page_is_the_tools_if_it_is_there() {
    let page = "https://www.YouTube.com/watch?v=1";
    assert_eq!(choose_fetcher(page, true), Fetcher::Tool);
    assert_eq!(choose_fetcher(page, false), Fetcher::Engine);
    assert_eq!(choose_fetcher("https://example.com/a.zip", true), Fetcher::Engine);
}
