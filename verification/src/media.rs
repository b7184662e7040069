//! Video pages: telling them apart, driving the tool that fetches them, and
//! reading what it reports.
//!
//! A page on a video platform is not a file. An external tool resolves it and
//! fetches its video and audio tracks one after the other, printing a line of
//! progress as it goes.

use vstd::prelude::*;

use crate::categorize::Category;
use crate::config::components;
use crate::download::DownloadOutcome;
use crate::error::{joined, Error, ErrorView};
use crate::naming;
use crate::naming::{opt_text, FilePath};
use crate::state::copy_opt;
use crate::text;
use crate::text::Fringe;

verus! {

// ---------------------------------------------------------------- the platforms
/// What the URLs of video pages contain.
pub open spec fn platform_marks() -> Seq<Seq<char>> {
    seq![
        "youtube.com/watch"@,
        "youtube.com/shorts"@,
        "youtube.com/live"@,
        "youtu.be/"@,
        "tiktok.com/"@,
        "vimeo.com/"@,
        "instagram.com/p/"@,
        "instagram.com/reel/"@,
        "twitter.com/"@,
        "x.com/"@,
    ]
}

/// Whether a URL in lower case is that of a video page.
pub fn is_platform_page(lower: &str) -> (r: bool)
    ensures
        r == text::mentions(lower@, platform_marks()),
{
    let marks: Vec<&'static str> = vec![
        "youtube.com/watch",
        "youtube.com/shorts",
        "youtube.com/live",
        "youtu.be/",
        "tiktok.com/",
        "vimeo.com/",
        "instagram.com/p/",
        "instagram.com/reel/",
        "twitter.com/",
        "x.com/",
    ];
    assert(text::literals(marks@) =~= platform_marks());
    text::mentions_any(text::chars_of(lower).as_slice(), &marks)
}

/// Whether a URL, in whatever case it is written, is that of a video page.
pub fn is_video_platform(url: &str) -> (r: bool)
    ensures
        r == text::mentions(text::unicode_lower(url@), platform_marks()),
{
    is_platform_page(text::to_lowercase(url).as_str())
}

/// Who fetches a download.
#[derive(Debug, Clone, Copy, PartialEq, Eq, Structural)]
pub enum Fetcher {
    /// The media tool, which finds the video behind a page.
    Tool,
    Engine,
}

/// Who fetches a URL.
pub open spec fn fetcher(url: Seq<char>, has_tool: bool) -> Fetcher {
    if has_tool && text::mentions(text::unicode_lower(url), platform_marks()) {
        Fetcher::Tool
    } else {
        Fetcher::Engine
    }
}

/// Choose who fetches a URL: a video page is the tool's, if the tool is there.
pub fn choose_fetcher(url: &str, has_tool: bool) -> (r: Fetcher)
    ensures
        r == fetcher(url@, has_tool),
{
    if has_tool && is_video_platform(url) {
        Fetcher::Tool
    } else {
        Fetcher::Engine
    }
}

// ------------------------------------------------------------------ the numbers
/// A rate as the tool prints it: a number, and the bytes per second that one of
/// its unit stands for.
#[derive(Debug, Clone, PartialEq, Eq)]
pub struct Speed {
    pub number: String,
    pub scale: u64,
}

/// What a rate is, mathematically.
#[verifier::ext_equal]
pub struct SpeedView {
    pub number: Seq<char>,
    pub scale: u64,
}

impl View for Speed {
    type V = SpeedView;

    open spec fn view(&self) -> SpeedView {
        SpeedView { number: self.number@, scale: self.scale }
    }
}

/// What an optional rate is.
pub open spec fn opt_speed(v: Option<Speed>) -> Option<SpeedView> {
    match v {
        Some(s) => Some(s@),
        None => None,
    }
}

/// The rate that a text in upper case gives, if it names a unit.
pub open spec fn speed_text(upper: Seq<char>) -> Option<SpeedView> {
    if text::occurs_in("GIB/S"@, upper) || text::occurs_in("GB/S"@, upper) {
        Some(
            SpeedView {
                number: text::trimmed(
                    text::erased(text::erased(upper, "GIB/S"@), "GB/S"@),
                    Fringe::Space,
                ),
                scale: 1073741824,
            },
        )
    } else if text::occurs_in("MIB/S"@, upper) || text::occurs_in("MB/S"@, upper) {
        Some(
            SpeedView {
                number: text::trimmed(
                    text::erased(text::erased(upper, "MIB/S"@), "MB/S"@),
                    Fringe::Space,
                ),
                scale: 1048576,
            },
        )
    } else if text::occurs_in("KIB/S"@, upper) || text::occurs_in("KB/S"@, upper) {
        Some(
            SpeedView {
                number: text::trimmed(
                    text::erased(text::erased(upper, "KIB/S"@), "KB/S"@),
                    Fringe::Space,
                ),
                scale: 1024,
            },
        )
    } else if text::occurs_in("B/S"@, upper) {
        Some(
            SpeedView {
                number: text::trimmed(text::erased(upper, "B/S"@), Fringe::Space),
                scale: 1,
            },
        )
    } else {
        None
    }
}

fn number_without(upper: &[char], long: &str, short: &str) -> (r: String)
    ensures
        r@ == text::trimmed(text::erased(text::erased(upper@, long@), short@), Fringe::Space),
{
    let once = text::erase(upper, text::chars_of(long).as_slice());
    let twice = text::erase(once.as_slice(), text::chars_of(short).as_slice());
    text::text_of(text::trim(twice.as_slice(), Fringe::Space))
}

/// Read a rate from a text in upper case.
pub fn read_speed(upper: &str) -> (r: Option<Speed>)
    ensures
        opt_speed(r) == speed_text(upper@),
{
    let s = text::chars_of(upper);
    let u = s.as_slice();
    if text::contains_text(u, "GIB/S") || text::contains_text(u, "GB/S") {
        Some(Speed { number: number_without(u, "GIB/S", "GB/S"), scale: 1073741824 })
    } else if text::contains_text(u, "MIB/S") || text::contains_text(u, "MB/S") {
        Some(Speed { number: number_without(u, "MIB/S", "MB/S"), scale: 1048576 })
    } else if text::contains_text(u, "KIB/S") || text::contains_text(u, "KB/S") {
        Some(Speed { number: number_without(u, "KIB/S", "KB/S"), scale: 1024 })
    } else if text::contains_text(u, "B/S") {
        let bare = text::erase(u, text::chars_of("B/S").as_slice());
        Some(
            Speed { number: text::text_of(text::trim(bare.as_slice(), Fringe::Space)), scale: 1 },
        )
    } else {
        None
    }
}

/// The rate that a text gives, in whatever case it is written.
pub open spec fn speed_of(s: Seq<char>) -> Option<SpeedView> {
    speed_text(text::unicode_upper(text::trimmed(s, Fringe::Space)))
}

/// Read a rate such as `1.43MiB/s`. `None` is a rate of nothing; so is a number
/// that does not parse.
pub fn parse_speed_str(s: &str) -> (r: Option<Speed>)
    ensures
        opt_speed(r) == speed_of(s@),
{
    let chars = text::chars_of(s);
    let trimmed = text::text_of(text::trim(chars.as_slice(), Fringe::Space));
    read_speed(text::to_uppercase(trimmed.as_str()).as_str())
}

/// A number of seconds, if it is one and fits.
pub open spec fn fitting(n: int) -> Option<u64> {
    if n <= u64::MAX {
        Some(n as u64)
    } else {
        None
    }
}

/// The number in one field of a time.
pub open spec fn field(s: Seq<char>) -> Option<u64> {
    text::parsed_u64(text::trimmed(s, Fringe::Space))
}

/// The seconds that a time such as `02:05` or `1:02:05` gives. Any other shape
/// gives none.
pub open spec fn eta_of(s: Seq<char>) -> Option<u64> {
    let bare = text::trimmed(s, Fringe::Space);
    let parts = text::pieces(bare, ':');
    if bare == "UNKNOWN"@ || bare == "NA"@ || bare.len() == 0 {
        None
    } else if parts.len() == 2 {
        match (field(parts[0]), field(parts[1])) {
            (Some(m), Some(s)) => fitting(m * 60 + s),
            _ => None,
        }
    } else if parts.len() == 3 {
        match (field(parts[0]), field(parts[1]), field(parts[2])) {
            (Some(h), Some(m), Some(s)) => fitting(h * 3600 + m * 60 + s),
            _ => None,
        }
    } else {
        None
    }
}

fn field_of(s: &Vec<char>) -> (r: Option<u64>)
    ensures
        r == field(s@),
{
    text::parse_u64(text::trim(s.as_slice(), Fringe::Space))
}

/// Read the time that is left. A time too long to count in seconds is none.
pub fn parse_eta_str(s: &str) -> (r: Option<u64>)
    ensures
        r == eta_of(s@),
{
    let chars = text::chars_of(s);
    let bare = text::trim(chars.as_slice(), Fringe::Space);
    if text::spells(bare, "UNKNOWN") || text::spells(bare, "NA") || bare.len() == 0 {
        return None;
    }
    let parts = text::split(bare, ':');
    assert(parts.len() == text::runs(parts@).len());
    if parts.len() == 2 {
        assert(text::runs(parts@)[0] == parts[0]@ && text::runs(parts@)[1] == parts[1]@);
        let m: u64 = match field_of(&parts[0]) {
            Some(n) => n,
            None => return None,
        };
        let s: u64 = match field_of(&parts[1]) {
            Some(n) => n,
            None => return None,
        };
        let total: u128 = (m as u128) * 60 + s as u128;
        if total <= u64::MAX as u128 {
            Some(total as u64)
        } else {
            None
        }
    } else if parts.len() == 3 {
        assert(text::runs(parts@)[0] == parts[0]@ && text::runs(parts@)[1] == parts[1]@
            && text::runs(parts@)[2] == parts[2]@);
        let h: u64 = match field_of(&parts[0]) {
            Some(n) => n,
            None => return None,
        };
        let m: u64 = match field_of(&parts[1]) {
            Some(n) => n,
            None => return None,
        };
        let s: u64 = match field_of(&parts[2]) {
            Some(n) => n,
            None => return None,
        };
        let total: u128 = (h as u128) * 3600 + (m as u128) * 60 + s as u128;
        if total <= u64::MAX as u128 {
            Some(total as u64)
        } else {
            None
        }
    } else {
        None
    }
}

// ----------------------------------------------------------------- the progress
/// How often a row is updated at most.
pub const PROGRESS_INTERVAL_MS: u64 = 50;

/// What a progress line begins with.
pub open spec fn progress_mark() -> Seq<char> {
    "FDM_PROG:"@
}

/// A line of progress: the bytes fetched of the current track, its size if that
/// is known, the rate, and the time that is left.
#[verifier::ext_equal]
pub struct LineView {
    pub downloaded: u64,
    pub total: Option<u64>,
    pub speed: Seq<char>,
    pub eta: Seq<char>,
}

/// What a line of the tool's output reports. The time may hold colons of its
/// own, so it is everything behind the third one.
pub open spec fn reported(line: Seq<char>) -> Option<LineView> {
    if !progress_mark().is_prefix_of(line) {
        None
    } else {
        let raw = text::trimmed(text::unprefixed(line, progress_mark()), Fringe::Space);
        match text::split_pair(raw, ':') {
            None => None,
            Some((downloaded, rest)) => match text::split_pair(rest, ':') {
                None => None,
                Some((total, rest)) => match text::split_pair(rest, ':') {
                    None => None,
                    Some((speed, eta)) => Some(
                        LineView {
                            downloaded: match field(downloaded) {
                                Some(n) => n,
                                None => 0,
                            },
                            total: match field(total) {
                                Some(n) => if n > 0 {
                                    Some(n)
                                } else {
                                    None
                                },
                                None => None,
                            },
                            speed: text::trimmed(speed, Fringe::Space),
                            eta: text::trimmed(eta, Fringe::Space),
                        },
                    ),
                },
            },
        }
    }
}

/// A line of progress, read.
#[derive(Debug, Clone, PartialEq, Eq)]
pub struct Line {
    pub downloaded: u64,
    pub total: Option<u64>,
    pub speed: String,
    pub eta: String,
}

impl View for Line {
    type V = LineView;

    open spec fn view(&self) -> LineView {
        LineView {
            downloaded: self.downloaded,
            total: self.total,
            speed: self.speed@,
            eta: self.eta@,
        }
    }
}

/// Read a line of the tool's output. `None` for a line that reports no progress.
pub fn parse_line(line: &str) -> (r: Option<Line>)
    ensures
        match r {
            Some(l) => reported(line@) == Some(l@),
            None => reported(line@) is None,
        },
{
    let chars = text::chars_of(line);
    let mark = text::chars_of("FDM_PROG:");
    if !text::starts_with(chars.as_slice(), mark.as_slice()) {
        return None;
    }
    let bare = text::strip_prefixes(chars.as_slice(), mark.as_slice());
    let raw = text::trim(bare, Fringe::Space);
    let (downloaded, rest) = match text::split_once(raw, ':') {
        Some(pair) => pair,
        None => return None,
    };
    let (total, rest) = match text::split_once(rest, ':') {
        Some(pair) => pair,
        None => return None,
    };
    let (speed, eta) = match text::split_once(rest, ':') {
        Some(pair) => pair,
        None => return None,
    };
    let downloaded: u64 = match text::parse_u64(text::trim(downloaded, Fringe::Space)) {
        Some(n) => n,
        None => 0,
    };
    let total: Option<u64> = match text::parse_u64(text::trim(total, Fringe::Space)) {
        Some(n) => if n > 0 {
            Some(n)
        } else {
            None
        },
        None => None,
    };
    Some(
        Line {
            downloaded,
            total,
            speed: text::text_of(text::trim(speed, Fringe::Space)),
            eta: text::text_of(text::trim(eta, Fringe::Space)),
        },
    )
}

/// Progress over tracks that are fetched one after the other.
#[derive(Debug, Clone, Copy, PartialEq, Eq, Structural)]
pub struct Tracks {
    /// Bytes of the tracks that are done.
    pub base: u64,
    /// Bytes of the current track, as last reported.
    pub seen: u64,
    /// Size of the current track, as last reported; zero before any.
    pub track_total: u64,
    /// Size of everything so far; zero before any.
    pub total: u64,
}

/// The sum, as far as a counter goes.
pub open spec fn capped(a: u64, b: u64) -> u64 {
    if a + b <= u64::MAX {
        (a + b) as u64
    } else {
        u64::MAX
    }
}

impl Tracks {
    /// Nothing fetched yet.
    pub open spec fn start() -> Tracks {
        Tracks { base: 0, seen: 0, track_total: 0, total: 0 }
    }

    /// A size was seen of the whole as soon as one was seen of a track.
    pub open spec fn wf(self) -> bool {
        self.track_total > 0 ==> self.total > 0
    }

    /// After a report. A count that falls back means that the next track has
    /// begun: what the last one came to is kept.
    pub open spec fn after(self, downloaded: u64, total: Option<u64>) -> Tracks {
        let next_track = downloaded < self.seen;
        let base = if next_track {
            capped(self.base, self.seen)
        } else {
            self.base
        };
        let seen = if next_track {
            0
        } else {
            downloaded
        };
        match total {
            Some(t) => if t != self.track_total {
                Tracks { base, seen, track_total: t, total: capped(base, t) }
            } else {
                Tracks { base, seen, ..self }
            },
            None => Tracks { base, seen, ..self },
        }
    }

    /// The bytes to show once a report was taken in.
    pub open spec fn shown(self, downloaded: u64) -> u64 {
        capped(self.base, downloaded)
    }

    /// The size to show once a report was taken in.
    pub open spec fn shown_total(self, downloaded: u64, total: Option<u64>) -> Option<u64> {
        if self.total > 0 {
            Some(
                if self.total >= self.shown(downloaded) {
                    self.total
                } else {
                    self.shown(downloaded)
                },
            )
        } else {
            match total {
                Some(t) => Some(capped(self.base, t)),
                None => None,
            }
        }
    }

    pub fn new() -> (r: Tracks)
        ensures
            r == Tracks::start(),
            r.wf(),
    {
        Tracks { base: 0, seen: 0, track_total: 0, total: 0 }
    }

    /// Take a report in, and say what to show.
    pub fn take(&mut self, downloaded: u64, total: Option<u64>) -> (r: (u64, Option<u64>))
        ensures
            *final(self) == old(self).after(downloaded, total),
            r.0 == old(self).after(downloaded, total).shown(downloaded),
            r.1 == old(self).after(downloaded, total).shown_total(downloaded, total),
    {
        if downloaded < self.seen {
            self.base = self.base.saturating_add(self.seen);
            self.seen = 0;
        } else {
            self.seen = downloaded;
        }
        if let Some(t) = total {
            if t != self.track_total {
                self.total = self.base.saturating_add(t);
                self.track_total = t;
            }
        }
        let shown: u64 = self.base.saturating_add(downloaded);
        let shown_total: Option<u64> = if self.total > 0 {
            Some(
                if self.total >= shown {
                    self.total
                } else {
                    shown
                },
            )
        } else {
            match total {
                Some(t) => Some(self.base.saturating_add(t)),
                None => None,
            }
        };
        (shown, shown_total)
    }
}

/// The count does not fall back to zero when the tool moves on to the next track:
/// what was shown last is still shown, and the new track's bytes on top.
pub proof fn law_a_new_track_does_not_reset_the_count(t: Tracks, downloaded: u64, total: Option<u64>)
    requires
        t.base + t.seen + downloaded <= u64::MAX,
        downloaded < t.seen,
    ensures
        t.after(downloaded, total).shown(downloaded) == t.shown(t.seen) + downloaded,
{
}

/// The size that is shown is never below the bytes that are shown, and it is
/// shown from the first report of a size on.
pub proof fn law_the_shown_size_covers_the_shown_bytes(
    t: Tracks,
    downloaded: u64,
    total: Option<u64>,
)
    requires
        t.wf(),
        total matches Some(n) ==> n > 0,
    ensures
        t.after(downloaded, total).wf(),
        t.after(downloaded, total).shown_total(downloaded, total) matches Some(n) ==> n >= t.after(
            downloaded,
            total,
        ).shown(downloaded),
        t.total > 0 || total is Some ==> t.after(downloaded, total).shown_total(
            downloaded,
            total,
        ) is Some,
{
}

/// What to show of a media download.
#[derive(Debug, Clone, PartialEq, Eq)]
pub struct Report {
    pub downloaded: u64,
    /// `None` leaves the row's total as it is.
    pub total: Option<u64>,
    pub speed: Option<Speed>,
    pub eta_secs: Option<u64>,
}

/// What to show of a media download, mathematically.
#[verifier::ext_equal]
pub struct ReportView {
    pub downloaded: u64,
    pub total: Option<u64>,
    pub speed: Option<SpeedView>,
    pub eta_secs: Option<u64>,
}

/// What an optional report is.
pub open spec fn opt_report(v: Option<Report>) -> Option<ReportView> {
    match v {
        Some(r) => Some(
            ReportView {
                downloaded: r.downloaded,
                total: r.total,
                speed: opt_speed(r.speed),
                eta_secs: r.eta_secs,
            },
        ),
        None => None,
    }
}

/// The tracks after a line of the tool's output, and what to show of it.
pub open spec fn noted(tracks: Tracks, line: Seq<char>, since_ms: u64) -> (
    Tracks,
    Option<ReportView>,
) {
    match reported(line) {
        None => (tracks, None),
        Some(l) => {
            let after = tracks.after(l.downloaded, l.total);
            (
                after,
                if since_ms < PROGRESS_INTERVAL_MS {
                    None
                } else {
                    Some(
                        ReportView {
                            downloaded: after.shown(l.downloaded),
                            total: after.shown_total(l.downloaded, l.total),
                            speed: speed_of(l.speed),
                            eta_secs: eta_of(l.eta),
                        },
                    )
                },
            )
        },
    }
}

/// Take in one line of the tool's output, `since_ms` after the last report. Every
/// line counts; a report is due only so often.
pub fn on_line(tracks: &mut Tracks, line: &str, since_ms: u64) -> (r: Option<Report>)
    ensures
        (*final(tracks), opt_report(r)) == noted(*old(tracks), line@, since_ms),
{
    let l = match parse_line(line) {
        Some(l) => l,
        None => return None,
    };
    let (downloaded, total) = tracks.take(l.downloaded, l.total);
    if since_ms < PROGRESS_INTERVAL_MS {
        return None;
    }
    Some(
        Report {
            downloaded,
            total,
            speed: parse_speed_str(l.speed.as_str()),
            eta_secs: parse_eta_str(l.eta.as_str()),
        },
    )
}

// --------------------------------------------------------------------- the tool
/// Whether a name asks for the sound alone.
pub open spec fn wants_audio(name: Option<Seq<char>>) -> bool {
    match name {
        Some(n) => text::occurs_in("(Audio)"@, n) || ".mp3"@.is_suffix_of(n)
            || ".m4a"@.is_suffix_of(n),
        None => false,
    }
}

pub fn is_audio(name: &Option<String>) -> (r: bool)
    ensures
        r == wants_audio(opt_text(*name)),
{
    match name {
        Some(n) => {
            let chars = text::chars_of(n.as_str());
            let s = chars.as_slice();
            text::contains_text(s, "(Audio)") || text::ends_with(
                s,
                text::chars_of(".mp3").as_slice(),
            ) || text::ends_with(s, text::chars_of(".m4a").as_slice())
        },
        None => false,
    }
}

/// The heights of picture that a name may ask for, tallest first.
pub open spec fn heights() -> Seq<u64> {
    seq![2160, 1440, 1080, 720, 480, 360, 240, 144]
}

/// Whether a name speaks of a height.
pub open spec fn names_height(name: Seq<char>, height: u64) -> bool {
    text::occurs_in(text::decimal(height as nat) + "p"@, name) || text::occurs_in(
        text::decimal(height as nat) + "P"@,
        name,
    )
}

/// The first of some heights that a name speaks of.
pub open spec fn first_height(name: Seq<char>, all: Seq<u64>) -> Option<u64>
    decreases all.len(),
{
    if all.len() == 0 {
        None
    } else if names_height(name, all[0]) {
        Some(all[0])
    } else {
        first_height(name, all.skip(1))
    }
}

fn height_in(name: &[char]) -> (r: Option<u64>)
    ensures
        r == first_height(name@, heights()),
{
    let all: Vec<u64> = vec![2160, 1440, 1080, 720, 480, 360, 240, 144];
    assert(all@ =~= heights());
    let mut i: usize = 0;
    assert(all@.skip(0) =~= all@);
    while i < all.len()
        invariant
            i <= all.len(),
            first_height(name@, all@.skip(i as int)) == first_height(name@, heights()),
        decreases all.len() - i,
    {
        let number = text::decimal_of(all[i]);
        if text::contains_text(name, joined(number.as_str(), "p").as_str())
            || text::contains_text(name, joined(number.as_str(), "P").as_str()) {
            return Some(all[i]);
        }
        assert(all@.skip(i as int).skip(1) =~= all@.skip(i + 1));
        i = i + 1;
    }
    None
}

/// The tool's choice of format: the sound alone, or the best picture up to the
/// height that the name asks for.
pub open spec fn format_choice(name: Option<Seq<char>>) -> Seq<char> {
    if wants_audio(name) {
        "bestaudio[ext=m4a]/bestaudio/best"@
    } else {
        let height = match name {
            Some(n) => first_height(n, heights()),
            None => None,
        };
        match height {
            Some(h) => "bestvideo[height<="@ + text::decimal(h as nat)
                + "][ext=mp4]+bestaudio[ext=m4a]/bestvideo[height<="@ + text::decimal(h as nat)
                + "]+bestaudio/best[height<="@ + text::decimal(h as nat)
                + "]/bestvideo+bestaudio/best"@,
            None => "bestvideo[ext=mp4]+bestaudio[ext=m4a]/bestvideo+bestaudio/best"@,
        }
    }
}

pub fn format_arg(name: &Option<String>) -> (r: String)
    ensures
        r@ == format_choice(opt_text(*name)),
{
    if is_audio(name) {
        return "bestaudio[ext=m4a]/bestaudio/best".to_owned();
    }
    let height: Option<u64> = match name {
        Some(n) => height_in(text::chars_of(n.as_str()).as_slice()),
        None => None,
    };
    match height {
        Some(h) => {
            let number = text::decimal_of(h);
            let mut out = joined("bestvideo[height<=", number.as_str());
            out.append("][ext=mp4]+bestaudio[ext=m4a]/bestvideo[height<=");
            out.append(number.as_str());
            out.append("]+bestaudio/best[height<=");
            out.append(number.as_str());
            out.append("]/bestvideo+bestaudio/best");
            out
        },
        None => "bestvideo[ext=mp4]+bestaudio[ext=m4a]/bestvideo+bestaudio/best".to_owned(),
    }
}

/// The category of a media download.
pub open spec fn media_category(audio: bool) -> Category {
    if audio {
        Category::Music
    } else {
        Category::Video
    }
}

pub fn category_of(audio: bool) -> (r: Category)
    ensures
        r == media_category(audio),
{
    if audio {
        Category::Music
    } else {
        Category::Video
    }
}

/// Where the tool puts its files, as components to join.
pub open spec fn media_place(
    target_dir: Option<Seq<char>>,
    home: Option<Seq<char>>,
    audio: bool,
) -> Seq<Seq<char>> {
    match target_dir {
        Some(d) => seq![d],
        None => seq![
            match home {
                Some(h) => h,
                None => "."@,
            },
            "Downloads"@,
            "FDM"@,
            if audio {
                "Music"@
            } else {
                "Video"@
            },
        ],
    }
}

/// Where the tool puts its files, as components to join: where the caller said,
/// else in the category's folder of the user's downloads.
pub fn media_dir(target_dir: &Option<String>, home: Option<&str>, audio: bool) -> (r: Vec<String>)
    ensures
        components(r@) == media_place(
            opt_text(*target_dir),
            match home {
                Some(h) => Some(h@),
                None => None,
            },
            audio,
        ),
{
    match target_dir {
        Some(d) => {
            let r: Vec<String> = vec![d.clone()];
            assert(components(r@) =~= seq![d@]);
            r
        },
        None => {
            let base: &str = match home {
                Some(h) => h,
                None => ".",
            };
            let folder: &str = if audio {
                "Music"
            } else {
                "Video"
            };
            let r: Vec<String> = vec![
                base.to_owned(),
                "Downloads".to_owned(),
                "FDM".to_owned(),
                folder.to_owned(),
            ];
            assert(components(r@) =~= seq![base@, "Downloads"@, "FDM"@, folder@]);
            r
        },
    }
}

/// The arguments that fetch a page.
pub open spec fn fetch_arguments(
    url: Seq<char>,
    dir: Seq<char>,
    name: Option<Seq<char>>,
    connections: u32,
    deno: Option<Seq<char>>,
    ffmpeg_dir: Option<Seq<char>>,
) -> Seq<Seq<char>> {
    seq![
        "--newline"@,
        "--progress-template"@,
        "download:FDM_PROG:%(progress.downloaded_bytes)s:%(progress.total_bytes)s:%(progress._speed_str)s:%(progress._eta_str)s"@,
        "--no-playlist"@,
        "--no-warnings"@,
        "-N"@,
        text::decimal(connections as nat),
        "-f"@,
        format_choice(name),
        "-o"@,
        dir + "/%(title)s.%(ext)s"@,
    ] + (match deno {
        Some(d) => seq!["--js-runtimes"@, "deno:"@ + d],
        None => seq![],
    }) + (match ffmpeg_dir {
        Some(d) => seq!["--ffmpeg-location"@, d],
        None => seq![],
    }) + seq![url]
}

/// The arguments that fetch `url` into `dir`, in the format that `name` asks for.
/// `deno` and `ffmpeg_dir` are the helpers that were found.
pub fn fetch_args(
    url: &str,
    dir: &str,
    name: &Option<String>,
    connections: u32,
    deno: &Option<String>,
    ffmpeg_dir: &Option<String>,
) -> (r: Vec<String>)
    ensures
        components(r@) == fetch_arguments(
            url@,
            dir@,
            opt_text(*name),
            connections,
            opt_text(*deno),
            opt_text(*ffmpeg_dir),
        ),
{
    let format = format_arg(name);
    let template = joined(dir, "/%(title)s.%(ext)s");
    let number = text::decimal_of(connections as u64);
    let mut args: Vec<String> = vec![
        "--newline".to_owned(),
        "--progress-template".to_owned(),
        "download:FDM_PROG:%(progress.downloaded_bytes)s:%(progress.total_bytes)s:%(progress._speed_str)s:%(progress._eta_str)s".to_owned(),
        "--no-playlist".to_owned(),
        "--no-warnings".to_owned(),
        "-N".to_owned(),
        number,
        "-f".to_owned(),
        format,
        "-o".to_owned(),
        template,
    ];
    if let Some(d) = deno {
        args.push("--js-runtimes".to_owned());
        args.push(joined("deno:", d.as_str()));
    }
    if let Some(d) = ffmpeg_dir {
        args.push("--ffmpeg-location".to_owned());
        args.push(d.clone());
    }
    args.push(url.to_owned());
    assert(components(args@) =~= fetch_arguments(
        url@,
        dir@,
        opt_text(*name),
        connections,
        opt_text(*deno),
        opt_text(*ffmpeg_dir),
    ));
    args
}

/// The failure that the tool's end means, if it does.
pub open spec fn exit_fault(success: bool, cancelled: bool) -> Option<ErrorView> {
    if success {
        None
    } else if cancelled {
        Some(ErrorView::Cancelled)
    } else {
        Some(ErrorView::Other("Video download failed"@))
    }
}

/// What the tool's end means. A failure after the user stopped the download is
/// that stop.
pub fn judge_exit(success: bool, cancelled: bool) -> (r: Result<(), Error>)
    ensures
        match r {
            Ok(_) => exit_fault(success, cancelled) is None,
            Err(e) => exit_fault(success, cancelled) == Some(e@),
        },
{
    if success {
        Ok(())
    } else if cancelled {
        Err(Error::Cancelled)
    } else {
        Err(Error::other("Video download failed"))
    }
}

/// A file in the tool's folder, and when it was last written to.
#[derive(Debug, Clone, PartialEq, Eq)]
pub struct MediaFile {
    pub name: String,
    pub modified: i128,
}

/// Whether a file is one the tool leaves. A file in a folder goes by a single
/// component, so its extension is the same everywhere.
pub open spec fn is_media_name(name: Seq<char>) -> bool {
    let ext = naming::extension(name, false);
    ext == Some("mp4"@) || ext == Some("m4a"@) || ext == Some("webm"@) || ext == Some("mkv"@)
}

pub fn is_media(name: &str) -> (r: bool)
    ensures
        r == is_media_name(name@),
{
    let chars = text::chars_of(name);
    match naming::extension_of(chars.as_slice(), false) {
        Some(e) => text::spells(e, "mp4") || text::spells(e, "m4a") || text::spells(e, "webm")
            || text::spells(e, "mkv"),
        None => false,
    }
}

/// Whether the file at `i` is the newest of those the tool leaves, and the first
/// of several that are as new.
pub open spec fn is_newest(files: Seq<MediaFile>, i: int) -> bool {
    &&& 0 <= i < files.len()
    &&& is_media_name(files[i].name@)
    &&& forall|k: int|
        0 <= k < files.len() && is_media_name((#[trigger] files[k]).name@) ==> if k < i {
            files[k].modified < files[i].modified
        } else {
            files[k].modified <= files[i].modified
        }
}

/// Find what the tool left: it does not say, so the newest file is it.
pub fn newest(files: &Vec<MediaFile>) -> (r: Option<usize>)
    ensures
        match r {
            Some(i) => is_newest(files@, i as int),
            None => forall|k: int|
                0 <= k < files.len() ==> !is_media_name((#[trigger] files[k]).name@),
        },
{
    let mut best: Option<usize> = None;
    let mut i: usize = 0;
    while i < files.len()
        invariant
            i <= files.len(),
            match best {
                Some(b) => b < i && is_newest(files@.take(i as int), b as int),
                None => forall|k: int|
                    0 <= k < i ==> !is_media_name((#[trigger] files[k]).name@),
            },
        decreases files.len() - i,
    {
        let ghost seen = files@.take(i as int);
        let ghost more = files@.take(i + 1);
        assert(forall|k: int| 0 <= k < i ==> #[trigger] more[k] == seen[k]);
        assert(more[i as int] == files[i as int]);
        if is_media(files[i].name.as_str()) {
            let newer = match best {
                Some(b) => {
                    assert(seen[b as int] == files[b as int]);
                    files[i].modified > files[b].modified
                },
                None => true,
            };
            if newer {
                best = Some(i);
            }
        }
        assert(forall|k: int| 0 <= k < i ==> #[trigger] seen[k] == files[k]);
        i = i + 1;
    }
    assert(files@.take(i as int) =~= files@);
    best
}

/// What a finished media download comes to.
pub fn media_outcome(path: FilePath, size: u64, elapsed_ms: u64, connections: u32, audio: bool) -> (r:
    DownloadOutcome)
    ensures
        r == (DownloadOutcome {
            path,
            bytes: size,
            elapsed_ms,
            segments_used: connections,
            category: media_category(audio),
            resumed: false,
            used_ranges: true,
        }),
{
    DownloadOutcome {
        path,
        bytes: size,
        elapsed_ms,
        segments_used: connections,
        category: category_of(audio),
        resumed: false,
        used_ranges: true,
    }
}

// -------------------------------------------------------------------- resolving
/// The arguments that resolve a page to a stream.
pub open spec fn resolve_arguments(url: Seq<char>, deno: Option<Seq<char>>) -> Seq<Seq<char>> {
    (match deno {
        Some(d) => seq!["--js-runtimes"@, "deno:"@ + d],
        None => seq![],
    }) + seq!["-g"@, "--get-filename"@, "-o"@, "%(title)s.%(ext)s"@, "-f"@, "b/best"@, url]
}

pub fn resolve_args(url: &str, deno: &Option<String>) -> (r: Vec<String>)
    ensures
        components(r@) == resolve_arguments(url@, opt_text(*deno)),
{
    let mut args: Vec<String> = Vec::new();
    if let Some(d) = deno {
        args.push("--js-runtimes".to_owned());
        args.push(joined("deno:", d.as_str()));
    }
    args.push("-g".to_owned());
    args.push("--get-filename".to_owned());
    args.push("-o".to_owned());
    args.push("%(title)s.%(ext)s".to_owned());
    args.push("-f".to_owned());
    args.push("b/best".to_owned());
    args.push(url.to_owned());
    assert(components(args@) =~= resolve_arguments(url@, opt_text(*deno)));
    args
}

/// The pieces that hold more than space, without the space around them.
pub open spec fn solid(v: Seq<Seq<char>>) -> Seq<Seq<char>>
    decreases v.len(),
{
    if v.len() == 0 {
        Seq::empty()
    } else {
        let last = text::trimmed(v.last(), Fringe::Space);
        if last.len() > 0 {
            solid(v.drop_last()).push(last)
        } else {
            solid(v.drop_last())
        }
    }
}

/// A stream that a page resolved to: its URL, and the name to save it under.
#[verifier::ext_equal]
pub struct StreamView {
    pub url: Seq<char>,
    pub filename: Option<Seq<char>>,
}

/// The stream that the tool's output gives: the URL on its first line, the name
/// on its second. Without a name the given one stays.
pub open spec fn stream_in(output: Seq<char>, filename: Option<Seq<char>>) -> Option<StreamView> {
    let lines = solid(text::pieces(output, '\n'));
    if lines.len() >= 2 {
        Some(StreamView { url: lines[0], filename: Some(lines[1]) })
    } else if lines.len() == 1 {
        Some(StreamView { url: lines[0], filename })
    } else {
        None
    }
}

/// A stream that a page resolved to.
#[derive(Debug, Clone, PartialEq, Eq)]
pub struct Stream {
    pub url: String,
    pub filename: Option<String>,
}

impl View for Stream {
    type V = StreamView;

    open spec fn view(&self) -> StreamView {
        StreamView { url: self.url@, filename: opt_text(self.filename) }
    }
}

/// What an optional stream is.
pub open spec fn opt_stream(v: Option<Stream>) -> Option<StreamView> {
    match v {
        Some(s) => Some(s@),
        None => None,
    }
}

/// Read the tool's output.
pub fn read_stream(output: &str, filename: &Option<String>) -> (r: Option<Stream>)
    ensures
        opt_stream(r) == stream_in(output@, opt_text(*filename)),
{
    let chars = text::chars_of(output);
    let parts = text::split(chars.as_slice(), '\n');
    let ghost all = text::runs(parts@);
    let mut lines: Vec<Vec<char>> = Vec::new();
    let mut i: usize = 0;
    assert(all.take(0) =~= Seq::<Seq<char>>::empty());
    assert(text::runs(lines@) =~= Seq::<Seq<char>>::empty());
    while i < parts.len()
        invariant
            i <= parts.len(),
            all == text::runs(parts@),
            text::runs(lines@) == solid(all.take(i as int)),
        decreases parts.len() - i,
    {
        let line = text::trim(parts[i].as_slice(), Fringe::Space);
        let ghost before = text::runs(lines@);
        assert(all.take(i + 1).drop_last() =~= all.take(i as int));
        assert(all.take(i + 1).last() == parts[i as int]@);
        if line.len() > 0 {
            lines.push(vstd::slice::slice_to_vec(line));
            assert(text::runs(lines@) =~= before.push(line@));
        }
        i = i + 1;
    }
    assert(all.take(i as int) =~= all);
    assert(lines.len() == text::runs(lines@).len());
    if lines.len() >= 2 {
        assert(text::runs(lines@)[0] == lines[0]@ && text::runs(lines@)[1] == lines[1]@);
        Some(
            Stream {
                url: text::text_of(lines[0].as_slice()),
                filename: Some(text::text_of(lines[1].as_slice())),
            },
        )
    } else if lines.len() == 1 {
        assert(text::runs(lines@)[0] == lines[0]@);
        Some(Stream { url: text::text_of(lines[0].as_slice()), filename: copy_opt(filename) })
    } else {
        None
    }
}

/// Read the tool's output, as the bytes it printed.
pub fn resolved_stream(stdout: &[u8], filename: &Option<String>) -> (r: Option<Stream>)
    ensures
        opt_stream(r) == stream_in(text::lossy_utf8(stdout@), opt_text(*filename)),
{
    read_stream(text::text_of_lossy(stdout).as_str(), filename)
}

// ---------------------------------------------------------------- finding tools
/// What a list of paths, each as components to join, is.
pub open spec fn places_view(v: Seq<Vec<String>>) -> Seq<Seq<Seq<char>>> {
    v.map_values(|p: Vec<String>| components(p@))
}

/// Where a tool is looked for, in order: beside the program, in the user's data,
/// where the installer puts it, and on the search path.
pub open spec fn tool_locations(
    exe_dir: Option<Seq<char>>,
    local_data: Option<Seq<char>>,
    installed: Seq<Seq<char>>,
    search: Seq<Seq<char>>,
    name: Seq<char>,
) -> Seq<Seq<Seq<char>>> {
    (match exe_dir {
        Some(d) => seq![seq![d, "tools"@, name], seq![d, name]],
        None => seq![],
    }) + (match local_data {
        Some(d) => seq![seq![d, "FDM"@, "tools"@, name]],
        None => seq![],
    }) + installed.map_values(|d: Seq<char>| seq![d, name]) + search.map_values(
        |d: Seq<char>| seq![d, name],
    )
}

/// Where the installer puts the tools.
pub fn install_dirs() -> (r: Vec<&'static str>)
    ensures
        text::literals(r@) == seq![
            "D:\\Code\\FDM\\target\\release\\tools"@,
            "D:\\Code\\FDM\\target\\installer-staging\\tools"@,
            "C:\\Program Files\\FDM\\tools"@,
        ],
{
    let r: Vec<&'static str> = vec![
        "D:\\Code\\FDM\\target\\release\\tools",
        "D:\\Code\\FDM\\target\\installer-staging\\tools",
        "C:\\Program Files\\FDM\\tools",
    ];
    assert(text::literals(r@) =~= seq![
        "D:\\Code\\FDM\\target\\release\\tools"@,
        "D:\\Code\\FDM\\target\\installer-staging\\tools"@,
        "C:\\Program Files\\FDM\\tools"@,
    ]);
    r
}

fn beside(dir: &str, name: &str) -> (r: Vec<String>)
    ensures
        components(r@) == seq![dir@, name@],
{
    let r: Vec<String> = vec![dir.to_owned(), name.to_owned()];
    assert(components(r@) =~= seq![dir@, name@]);
    r
}

/// Where a tool is looked for, in order.
pub fn tool_places(
    exe_dir: &Option<String>,
    local_data: &Option<String>,
    installed: &Vec<&'static str>,
    search: &Vec<String>,
    name: &str,
) -> (r: Vec<Vec<String>>)
    ensures
        places_view(r@) == tool_locations(
            opt_text(*exe_dir),
            opt_text(*local_data),
            text::literals(installed@),
            components(search@),
            name@,
        ),
{
    let mut out: Vec<Vec<String>> = Vec::new();
    if let Some(d) = exe_dir {
        let p: Vec<String> = vec![d.clone(), "tools".to_owned(), name.to_owned()];
        assert(components(p@) =~= seq![d@, "tools"@, name@]);
        out.push(p);
        out.push(beside(d.as_str(), name));
    }
    if let Some(d) = local_data {
        let p: Vec<String> = vec![
            d.clone(),
            "FDM".to_owned(),
            "tools".to_owned(),
            name.to_owned(),
        ];
        assert(components(p@) =~= seq![d@, "FDM"@, "tools"@, name@]);
        out.push(p);
    }
    let ghost head = tool_locations(
        opt_text(*exe_dir),
        opt_text(*local_data),
        Seq::empty(),
        Seq::empty(),
        name@,
    );
    assert(places_view(out@) =~= head);
    let ghost fixed = text::literals(installed@).map_values(|d: Seq<char>| seq![d, name@]);
    let ghost found = components(search@).map_values(|d: Seq<char>| seq![d, name@]);
    let mut i: usize = 0;
    while i < installed.len()
        invariant
            i <= installed.len(),
            fixed == text::literals(installed@).map_values(|d: Seq<char>| seq![d, name@]),
            places_view(out@) =~= head + fixed.take(i as int),
        decreases installed.len() - i,
    {
        let ghost before = places_view(out@);
        out.push(beside(installed[i], name));
        assert(places_view(out@) =~= before.push(fixed[i as int]));
        i = i + 1;
    }
    assert(fixed.take(i as int) =~= fixed);
    let mut j: usize = 0;
    while j < search.len()
        invariant
            j <= search.len(),
            found == components(search@).map_values(|d: Seq<char>| seq![d, name@]),
            places_view(out@) =~= head + fixed + found.take(j as int),
        decreases search.len() - j,
    {
        let ghost before = places_view(out@);
        out.push(beside(search[j].as_str(), name));
        assert(places_view(out@) =~= before.push(found[j as int]));
        j = j + 1;
    }
    assert(found.take(j as int) =~= found);
    assert(places_view(out@) =~= tool_locations(
        opt_text(*exe_dir),
        opt_text(*local_data),
        text::literals(installed@),
        components(search@),
        name@,
    ));
    out
}

/// The first place where something is there.
pub fn find_tool<F: Fn(&Vec<String>) -> bool>(places: &Vec<Vec<String>>, is_there: F) -> (r: Option<
    usize,
>)
    requires
        forall|p: &Vec<String>| call_requires(is_there, (p,)),
    ensures
        match r {
            Some(i) => i < places.len() && call_ensures(is_there, (&places[i as int],), true)
                && forall|k: int|
                0 <= k < i ==> call_ensures(is_there, (&#[trigger] places[k],), false),
            None => forall|k: int|
                0 <= k < places.len() ==> call_ensures(is_there, (&#[trigger] places[k],), false),
        },
{
    let mut i: usize = 0;
    while i < places.len()
        invariant
            i <= places.len(),
            forall|p: &Vec<String>| call_requires(is_there, (p,)),
            forall|k: int| 0 <= k < i ==> call_ensures(is_there, (&#[trigger] places[k],), false),
        decreases places.len() - i,
    {
        if is_there(&places[i]) {
            return Some(i);
        }
        i = i + 1;
    }
    None
}

// -------------------------------------------------------------- laws on reports
proof fn lemma_number(n: nat)
    requires
        n <= u64::MAX,
    ensures
        field(text::decimal(n)) == Some(n as u64),
        !text::decimal(n).contains(':'),
        text::decimal(n).len() > 0,
        !text::is_space(text::decimal(n)[0]) && !text::is_space(text::decimal(n).last()),
        text::decimal(n)[0] != 'F',
{
    let d = text::decimal(n);
    text::law_a_number_reads_back(n);
    assert(text::is_digit(d[0]) && text::is_digit(d[d.len() - 1]));
    text::law_trimming_leaves_the_rest(d, Fringe::Space);
    if d.contains(':') {
        let i = choose|i: int| 0 <= i < d.len() && d[i] == ':';
        assert(text::is_digit(d[i]));
    }
}

/// A time is read as the seconds it says, with or without hours.
pub proof fn law_a_time_is_read(h: nat, m: nat, s: nat)
    requires
        h * 3600 + m * 60 + s <= u64::MAX,
    ensures
        eta_of(text::decimal(m) + seq![':'] + text::decimal(s)) == Some((m * 60 + s) as u64),
        eta_of(
            text::decimal(h) + seq![':'] + (text::decimal(m) + seq![':'] + text::decimal(s)),
        ) == Some((h * 3600 + m * 60 + s) as u64),
{
    reveal_strlit("UNKNOWN");
    reveal_strlit("NA");
    let (dh, dm, ds) = (text::decimal(h), text::decimal(m), text::decimal(s));
    lemma_number(h);
    lemma_number(m);
    lemma_number(s);
    let two = dm + seq![':'] + ds;
    let three = dh + seq![':'] + two;
    assert(two[0] == dm[0] && two.last() == ds.last());
    assert(three[0] == dh[0] && three.last() == ds.last());
    text::law_trimming_leaves_the_rest(two, Fringe::Space);
    text::law_trimming_leaves_the_rest(three, Fringe::Space);
    text::law_a_list_is_parted(ds, ':', Seq::empty());
    text::law_a_list_is_parted(dm, ':', ds);
    text::law_a_list_is_parted(dh, ':', two);
    text::law_a_number_reads_back(h);
    text::law_a_number_reads_back(m);
    assert(text::is_digit(two[0]) && text::is_digit(three[0]));
    assert("UNKNOWN"@[0] == 'U' && "NA"@[0] == 'N');
    let p2 = text::pieces(two, ':');
    let p3 = text::pieces(three, ':');
    assert(p2 =~= seq![dm, ds]);
    assert(p3 =~= seq![dh, dm, ds]);
    assert(p2.len() == 2 && p2[0] == dm && p2[1] == ds);
    assert(p3.len() == 3 && p3[0] == dh && p3[1] == dm && p3[2] == ds);
}

/// A line of progress is read as what it says: the bytes, the size where it is known,
/// the rate and the time that is left.
pub proof fn law_a_progress_line_is_read(
    downloaded: nat,
    total: nat,
    speed: Seq<char>,
    eta: Seq<char>,
)
    requires
        downloaded <= u64::MAX,
        0 < total <= u64::MAX,
        !speed.contains(':'),
        speed.len() > 0 ==> !text::is_space(speed[0]) && !text::is_space(speed.last()),
        eta.len() > 0,
        !text::is_space(eta[0]) && !text::is_space(eta.last()),
    ensures
        ({
            let line = progress_mark() + (text::decimal(downloaded) + seq![':'] + (text::decimal(
                total,
            ) + seq![':'] + (speed + seq![':'] + eta)));
            reported(line) == Some(
                LineView {
                    downloaded: downloaded as u64,
                    total: Some(total as u64),
                    speed,
                    eta,
                },
            )
        }),
{
    reveal_strlit("FDM_PROG:");
    let mark = progress_mark();
    let (d, t) = (text::decimal(downloaded), text::decimal(total));
    lemma_number(downloaded);
    lemma_number(total);
    let last = speed + seq![':'] + eta;
    let mid = t + seq![':'] + last;
    let raw = d + seq![':'] + mid;
    let line = mark + raw;
    assert(line.take(mark.len() as int) =~= mark);
    assert(mark.is_prefix_of(line));
    text::law_a_beginning_is_taken_off(raw, mark);
    assert(raw[0] == d[0]);
    if mark.is_prefix_of(raw) {
        assert(raw[0] == mark[0]);
    }
    assert(raw.last() == eta.last());
    text::law_trimming_leaves_the_rest(raw, Fringe::Space);
    text::law_a_pair_is_parted(d, ':', mid);
    text::law_a_pair_is_parted(t, ':', last);
    text::law_a_pair_is_parted(speed, ':', eta);
    text::law_trimming_leaves_the_rest(speed, Fringe::Space);
    text::law_trimming_leaves_the_rest(eta, Fringe::Space);
}

proof fn lemma_absent(s: Seq<char>, p: Seq<char>)
    requires
        p.len() > 0,
        !s.contains(p[0]),
    ensures
        !text::occurs_in(p, s),
        text::erased(s, p) == s,
    decreases s.len(),
{
    if text::occurs_in(p, s) {
        let i = choose|i: int| text::matches_at(s, p, i);
        assert(s.subrange(i, i + p.len())[0] == s[i]);
        assert(s.contains(p[0]));
    }
    if s.len() > 0 {
        if p.is_prefix_of(s) {
            assert(s[0] == p[0]);
            assert(s.contains(p[0]));
        }
        let rest = s.skip(1);
        if rest.contains(p[0]) {
            let i = choose|i: int| 0 <= i < rest.len() && rest[i] == p[0];
            assert(s[i + 1] == p[0]);
        }
        lemma_absent(rest, p);
        assert(seq![s[0]] + rest =~= s);
    } else {
        assert(s =~= Seq::<char>::empty());
    }
}

proof fn lemma_rest_is_free(n: Seq<char>, c: char)
    requires
        n.len() > 0,
        !n.contains(c),
    ensures
        n[0] != c,
        !n.skip(1).contains(c),
{
    let rest = n.skip(1);
    assert(n.contains(n[0]));
    if rest.contains(c) {
        let i = choose|i: int| 0 <= i < rest.len() && rest[i] == c;
        assert(n[i + 1] == c);
    }
}

proof fn lemma_erased_behind(n: Seq<char>, p: Seq<char>)
    requires
        p.len() > 0,
        !n.contains(p[0]),
    ensures
        text::erased(n + p, p) == n,
    decreases n.len(),
{
    let s = n + p;
    if n.len() > 0 {
        lemma_rest_is_free(n, p[0]);
        assert(s[0] == n[0]);
        if p.is_prefix_of(s) {
            assert(s[0] == p[0]);
        }
        lemma_erased_behind(n.skip(1), p);
        assert(s.skip(1) =~= n.skip(1) + p);
        assert(seq![n[0]] + n.skip(1) =~= n);
    } else {
        assert(s =~= p);
        assert(p.is_prefix_of(s));
        assert(s.skip(p.len() as int) =~= Seq::<char>::empty());
        assert(n =~= Seq::<char>::empty());
        reveal_with_fuel(text::erased, 2);
    }
}

proof fn lemma_occurs_behind(n: Seq<char>, p: Seq<char>)
    ensures
        text::occurs_in(p, n + p),
{
    text::law_what_occurs_is_found(n, p, Seq::empty());
    assert(n + p + Seq::<char>::empty() =~= n + p);
}

proof fn lemma_rate(n: Seq<char>, unit: Seq<char>, c: char)
    requires
        forall|i: int| 0 <= i < n.len() ==> text::is_digit(#[trigger] n[i]) || n[i] == '.',
        !text::is_digit(c),
        c != '.',
        !unit.contains(c),
    ensures
        !n.contains(c),
        !(n + unit).contains(c),
{
    if n.contains(c) {
        let i = choose|i: int| 0 <= i < n.len() && n[i] == c;
        assert(text::is_digit(n[i]) || n[i] == '.');
    }
    let s = n + unit;
    if s.contains(c) {
        let i = choose|i: int| 0 <= i < s.len() && s[i] == c;
        if i < n.len() {
            assert(text::is_digit(n[i]) || n[i] == '.');
        } else {
            assert(unit[i - n.len()] == c);
        }
    }
}

/// What of a rate is read once its unit is known to be there.
proof fn lemma_number_of_rate(n: Seq<char>, long: Seq<char>, short: Seq<char>)
    requires
        n.len() > 0,
        forall|i: int| 0 <= i < n.len() ==> text::is_digit(#[trigger] n[i]) || n[i] == '.',
        long.len() > 0 && short.len() > 0,
        !text::is_digit(long[0]) && long[0] != '.',
        !text::is_digit(short[0]) && short[0] != '.',
    ensures
        text::trimmed(text::erased(text::erased(n + long, long), short), Fringe::Space) == n,
        text::trimmed(text::erased(n + long, long), Fringe::Space) == n,
{
    let none = Seq::<char>::empty();
    lemma_rate(n, none, long[0]);
    lemma_rate(n, none, short[0]);
    lemma_erased_behind(n, long);
    lemma_absent(n, short);
    assert(text::is_digit(n[0]) || n[0] == '.');
    assert(text::is_digit(n[n.len() - 1]) || n[n.len() - 1] == '.');
    text::law_trimming_leaves_the_rest(n, Fringe::Space);
}

proof fn lemma_units_absent(n: Seq<char>, unit: Seq<char>, long: Seq<char>, short: Seq<char>)
    requires
        forall|i: int| 0 <= i < n.len() ==> text::is_digit(#[trigger] n[i]) || n[i] == '.',
        long.len() > 0 && short.len() > 0 && long[0] == short[0],
        !text::is_digit(long[0]) && long[0] != '.',
        !unit.contains(long[0]),
    ensures
        !text::occurs_in(long, n + unit),
        !text::occurs_in(short, n + unit),
{
    lemma_rate(n, unit, long[0]);
    lemma_absent(n + unit, long);
    lemma_absent(n + unit, short);
}

/// A rate is read as its number and what its unit is worth.
pub proof fn law_a_rate_is_read(n: Seq<char>)
    requires
        n.len() > 0,
        forall|i: int| 0 <= i < n.len() ==> text::is_digit(#[trigger] n[i]) || n[i] == '.',
    ensures
        speed_text(n + "GIB/S"@) == Some(SpeedView { number: n, scale: 1073741824 }),
        speed_text(n + "MIB/S"@) == Some(SpeedView { number: n, scale: 1048576 }),
        speed_text(n + "KIB/S"@) == Some(SpeedView { number: n, scale: 1024 }),
        speed_text(n + "B/S"@) == Some(SpeedView { number: n, scale: 1 }),
{
    let (gi, g) = ("GIB/S"@, "GB/S"@);
    let (mi, m) = ("MIB/S"@, "MB/S"@);
    let (ki, k) = ("KIB/S"@, "KB/S"@);
    let b = "B/S"@;
    assert(gi.len() > 0 && g.len() > 0 && gi[0] == 'G' && g[0] == 'G') by {
        reveal_strlit("GIB/S");
        reveal_strlit("GB/S");
    }
    assert(mi.len() > 0 && m.len() > 0 && mi[0] == 'M' && m[0] == 'M' && !mi.contains('G')) by {
        reveal_strlit("MIB/S");
        reveal_strlit("MB/S");
    }
    assert(ki.len() > 0 && k.len() > 0 && ki[0] == 'K' && k[0] == 'K' && !ki.contains('G')
        && !ki.contains('M')) by {
        reveal_strlit("KIB/S");
        reveal_strlit("KB/S");
    }
    assert(b.len() > 0 && b[0] == 'B' && !b.contains('G') && !b.contains('M') && !b.contains('K'))
        by {
        reveal_strlit("B/S");
    }
    lemma_number_of_rate(n, gi, g);
    lemma_occurs_behind(n, gi);
    lemma_number_of_rate(n, mi, m);
    lemma_occurs_behind(n, mi);
    lemma_units_absent(n, mi, gi, g);
    lemma_number_of_rate(n, ki, k);
    lemma_occurs_behind(n, ki);
    lemma_units_absent(n, ki, gi, g);
    lemma_units_absent(n, ki, mi, m);
    lemma_number_of_rate(n, b, b);
    lemma_occurs_behind(n, b);
    lemma_units_absent(n, b, gi, g);
    lemma_units_absent(n, b, mi, m);
    lemma_units_absent(n, b, ki, k);
}

/// Every line counts, and a report is due once enough time has passed; a line that
/// reports nothing changes nothing.
pub proof fn law_every_line_counts(tracks: Tracks, line: Seq<char>, since_ms: u64, later_ms: u64)
    ensures
        noted(tracks, line, since_ms).0 == noted(tracks, line, later_ms).0,
        reported(line) is None ==> noted(tracks, line, since_ms) == (tracks, None::<ReportView>),
        reported(line) is Some && since_ms >= 50 ==> noted(tracks, line, since_ms).1 is Some,
        since_ms < 50 ==> noted(tracks, line, since_ms).1 is None,
        reported(line) matches Some(l) ==> (since_ms >= 50 ==> (noted(
            tracks,
            line,
            since_ms,
        ).1 matches Some(r) && r.speed == speed_of(l.speed) && r.eta_secs == eta_of(l.eta))),
{
}

/// Within a track the bytes are those of the tracks before it and its own, and so is
/// the size once it is known.
pub proof fn law_a_track_counts_up(t: Tracks, downloaded: u64, total: u64)
    requires
        t.seen <= downloaded,
        t.base + downloaded <= u64::MAX,
        t.base + total <= u64::MAX,
        0 < total,
        downloaded <= total,
        total != t.track_total,
    ensures
        ({
            let after = t.after(downloaded, Some(total));
            &&& after.shown(downloaded) == t.base + downloaded
            &&& after.shown_total(downloaded, Some(total)) == Some((t.base + total) as u64)
            &&& after.base == t.base && after.seen == downloaded
            &&& t.after(downloaded, None).total == t.total
        }),
        Tracks::start().shown(downloaded) == downloaded,
{
}

// ------------------------------------------------------------- laws on the tool
/// A URL with the mark of a platform in it is a video page, wherever the mark stands.
pub proof fn law_every_platform_is_known(a: Seq<char>, b: Seq<char>, i: int)
    ensures
        0 <= i < platform_marks().len() ==> text::mentions(
            a + platform_marks()[i] + b,
            platform_marks(),
        ),
        text::mentions(a + "youtube.com/watch"@ + b, platform_marks()),
        text::mentions(a + "youtu.be/"@ + b, platform_marks()),
        text::mentions(a + "tiktok.com/"@ + b, platform_marks()),
        text::mentions(a + "vimeo.com/"@ + b, platform_marks()),
        text::mentions(a + "instagram.com/p/"@ + b, platform_marks()),
        text::mentions(a + "twitter.com/"@ + b, platform_marks()),
        text::mentions(a + "x.com/"@ + b, platform_marks()),
{
    let marks = platform_marks();
    if 0 <= i < marks.len() {
        text::law_what_occurs_is_found(a, marks[i], b);
    }
    text::law_what_occurs_is_found(a, marks[0], b);
    text::law_what_occurs_is_found(a, marks[3], b);
    text::law_what_occurs_is_found(a, marks[4], b);
    text::law_what_occurs_is_found(a, marks[5], b);
    text::law_what_occurs_is_found(a, marks[6], b);
    text::law_what_occurs_is_found(a, marks[8], b);
    text::law_what_occurs_is_found(a, marks[9], b);
}

/// A video page is the tool's exactly where the tool is there; everything else is the
/// engine's.
pub proof fn law_only_video_pages_are_the_tools(url: Seq<char>, has_tool: bool)
    ensures
        fetcher(url, has_tool) == Fetcher::Tool <==> has_tool && text::mentions(
            text::unicode_lower(url),
            platform_marks(),
        ),
{
}

/// The height is the tallest that the name speaks of.
pub proof fn law_the_tallest_height_is_taken(name: Seq<char>, all: Seq<u64>, k: int)
    requires
        0 <= k < all.len(),
        names_height(name, all[k]),
        forall|j: int| 0 <= j < k ==> !names_height(name, #[trigger] all[j]),
    ensures
        first_height(name, all) == Some(all[k]),
    decreases k,
{
    if k > 0 {
        assert(!names_height(name, all[0]));
        let rest = all.skip(1);
        assert(rest[k - 1] == all[k]);
        assert forall|j: int| 0 <= j < k - 1 implies !names_height(name, #[trigger] rest[j]) by {
            assert(rest[j] == all[j + 1]);
        }
        law_the_tallest_height_is_taken(name, rest, k - 1);
    }
}

/// What is asked of the tool is what the name says: the sound alone, or no taller
/// picture than it names.
pub proof fn law_the_format_is_what_the_name_says(a: Seq<char>, name: Seq<char>, k: int)
    requires
        0 <= k < heights().len(),
        names_height(name, heights()[k]),
        forall|j: int| 0 <= j < k ==> !names_height(name, #[trigger] heights()[j]),
        !wants_audio(Some(name)),
    ensures
        text::occurs_in(
            "bestvideo[height<="@ + text::decimal(heights()[k] as nat),
            format_choice(Some(name)),
        ),
        wants_audio(Some(a + ".mp3"@)) && wants_audio(Some(a + ".m4a"@)),
        wants_audio(Some(a + "(Audio)"@ + name)),
        !wants_audio(None),
        format_choice(Some(a + ".mp3"@)) == format_choice(Some(a + ".m4a"@)),
        format_choice(Some(a + ".mp3"@)) != format_choice(Some(name)),
        media_category(true) == Category::Music && media_category(false) == Category::Video,
{
    law_the_tallest_height_is_taken(name, heights(), k);
    let h = heights()[k];
    let front = "bestvideo[height<="@ + text::decimal(h as nat);
    let rest = "][ext=mp4]+bestaudio[ext=m4a]/bestvideo[height<="@ + text::decimal(h as nat)
        + "]+bestaudio/best[height<="@ + text::decimal(h as nat) + "]/bestvideo+bestaudio/best"@;
    let none = Seq::<char>::empty();
    text::law_what_occurs_is_found(none, front, rest);
    assert(none + front + rest =~= format_choice(Some(name)));
    text::law_what_occurs_is_found(a, "(Audio)"@, name);
    assert((a + ".mp3"@).skip(a.len() as int) =~= ".mp3"@);
    assert((a + ".m4a"@).skip(a.len() as int) =~= ".m4a"@);
    reveal_strlit("bestaudio[ext=m4a]/bestaudio/best");
    reveal_strlit("bestvideo[height<=");
    assert(format_choice(Some(name))[4] == 'v');
    assert("bestaudio[ext=m4a]/bestaudio/best"@[4] == 'a');
}

/// The tool is told to fetch this page, into this folder, in this format, over so
/// many connections, and with the helpers that were found.
pub proof fn law_the_tool_is_told_what_to_do(
    url: Seq<char>,
    dir: Seq<char>,
    name: Option<Seq<char>>,
    connections: u32,
    deno: Option<Seq<char>>,
    ffmpeg_dir: Option<Seq<char>>,
)
    ensures
        ({
            let args = fetch_arguments(url, dir, name, connections, deno, ffmpeg_dir);
            &&& args.last() == url
            &&& args[5] == "-N"@ && args[6] == text::decimal(connections as nat)
            &&& args[7] == "-f"@ && args[8] == format_choice(name)
            &&& args[9] == "-o"@ && dir.is_prefix_of(args[10])
            &&& deno matches Some(d) ==> args[11] == "--js-runtimes"@ && args[12] == "deno:"@ + d
            &&& ffmpeg_dir matches Some(d) ==> args[args.len() - 3] == "--ffmpeg-location"@
                && args[args.len() - 2] == d
        }),
        resolve_arguments(url, deno).last() == url,
{
    assert((dir + "/%(title)s.%(ext)s"@).take(dir.len() as int) =~= dir);
}

/// The caller's folder is where the files go; without one they go to the folder of
/// their kind, in the user's home.
pub proof fn law_media_go_where_they_belong(dir: Seq<char>, home: Seq<char>, audio: bool)
    ensures
        media_place(Some(dir), Some(home), audio) == seq![dir],
        media_place(None, Some(home), audio)[0] == home,
        media_place(None, Some(home), audio).last() == media_category(audio).folder_name(),
{
}

/// The tool's failure is the download's, unless the user stopped it; its success is
/// never taken for one.
pub proof fn law_a_stop_is_no_failure_of_the_tool(cancelled: bool)
    ensures
        exit_fault(true, cancelled) is None,
        exit_fault(false, true) == Some(ErrorView::Cancelled),
        exit_fault(false, false) matches Some(e) && e != ErrorView::Cancelled,
{
}

/// A page resolves to the first line the tool prints, under the name on the second;
/// with one line, the name that was given stays.
pub proof fn law_a_stream_is_read(url: Seq<char>, name: Seq<char>, given: Option<Seq<char>>)
    requires
        url.len() > 0 && !url.contains('\n') && !text::is_space(url[0]) && !text::is_space(
            url.last(),
        ),
        name.len() > 0 && !name.contains('\n') && !text::is_space(name[0]) && !text::is_space(
            name.last(),
        ),
    ensures
        stream_in(url + seq!['\n'] + (name + seq!['\n'] + Seq::empty()), given) == Some(
            StreamView { url, filename: Some(name) },
        ),
        stream_in(url + seq!['\n'] + Seq::empty(), given) == Some(
            StreamView { url, filename: given },
        ),
        stream_in(Seq::empty(), given) is None,
{
    let none = Seq::<char>::empty();
    assert(!none.contains('\n'));
    text::law_a_list_is_parted(none, '\n', none);
    text::law_a_list_is_parted(name, '\n', none);
    text::law_a_list_is_parted(url, '\n', name + seq!['\n'] + none);
    text::law_a_list_is_parted(url, '\n', none);
    text::law_trimming_leaves_the_rest(url, Fringe::Space);
    text::law_trimming_leaves_the_rest(name, Fringe::Space);
    text::law_trimming_leaves_the_rest(none, Fringe::Space);
    let two = text::pieces(url + seq!['\n'] + (name + seq!['\n'] + none), '\n');
    let one = text::pieces(url + seq!['\n'] + none, '\n');
    assert(two =~= seq![url, name, none]);
    assert(one =~= seq![url, none]);
    assert(two.drop_last() =~= seq![url, name]);
    assert(seq![url, name].drop_last() =~= seq![url]);
    assert(seq![url].drop_last() =~= Seq::<Seq<char>>::empty());
    assert(one.drop_last() =~= seq![url]);
    assert(seq![none].drop_last() =~= Seq::<Seq<char>>::empty());
    reveal_with_fuel(solid, 4);
    assert(solid(two) =~= seq![url, name]);
    assert(solid(one) =~= seq![url]);
    assert(solid(seq![none]) =~= Seq::<Seq<char>>::empty());
}

/// A tool beside the program is taken before any other, and one on the search path
/// after every other.
pub proof fn law_the_nearest_tool_is_taken(
    exe_dir: Seq<char>,
    local_data: Option<Seq<char>>,
    installed: Seq<Seq<char>>,
    search: Seq<Seq<char>>,
    name: Seq<char>,
    k: int,
)
    ensures
        ({
            let all = tool_locations(Some(exe_dir), local_data, installed, search, name);
            &&& all[0] == seq![exe_dir, "tools"@, name]
            &&& all[1] == seq![exe_dir, name]
            &&& local_data matches Some(d) ==> all[2] == seq![d, "FDM"@, "tools"@, name]
            &&& 0 <= k < search.len() ==> all[all.len() - search.len() + k] == seq![search[k], name]
            &&& 0 <= k < installed.len() ==> all[all.len() - search.len() - installed.len() + k]
                == seq![installed[k], name]
        }),
{
}

/// The file that is found is one the tool leaves, and none of those is newer.
pub proof fn law_the_newest_file_is_found(files: Seq<MediaFile>, i: int, k: int)
    requires
        is_newest(files, i),
        0 <= k < files.len(),
    ensures
        is_media_name(files[i].name@),
        is_media_name(files[k].name@) ==> files[k].modified <= files[i].modified,
        is_media_name(files[k].name@) && k < i ==> files[k].modified < files[i].modified,
        is_newest(files, k) ==> k == i,
{
}

} // verus!
