//! The command line: the headers it takes, the knobs it turns, and what it
//! prints.

use reqwest::header::{HeaderMap, HeaderName, HeaderValue};
use vstd::prelude::*;
use vstd::utf8::encode_utf8;

use crate::config::{components, EngineConfig};
use crate::download::DownloadOutcome;
use crate::error::joined;
use crate::headers;
use crate::headers::{is_header_name, is_header_value, values_of, Names, MAX_HEADERS};
use crate::progress;
use crate::progress::ProgressSnapshot;
use crate::text;
use crate::text::Fringe;

verus! {

// --------------------------------------------------------------------- headers
/// What is wrong with a header on the command line.
#[derive(Debug, Clone, PartialEq, Eq)]
pub enum HeaderFault {
    NoColon { entry: String },
    BadName { name: String },
    BadValue { value: String, name: String },
}

/// What is wrong with a header, mathematically.
#[verifier::ext_equal]
pub enum HeaderFaultView {
    NoColon { entry: Seq<char> },
    BadName { name: Seq<char> },
    BadValue { value: Seq<char>, name: Seq<char> },
}

impl View for HeaderFault {
    type V = HeaderFaultView;

    open spec fn view(&self) -> HeaderFaultView {
        match self {
            HeaderFault::NoColon { entry } => HeaderFaultView::NoColon { entry: entry@ },
            HeaderFault::BadName { name } => HeaderFaultView::BadName { name: name@ },
            HeaderFault::BadValue { value, name } => HeaderFaultView::BadValue {
                value: value@,
                name: name@,
            },
        }
    }
}

impl HeaderFault {
    /// What the fault says.
    pub fn message(&self) -> (r: String)
        ensures
            r@ == (match self@ {
                HeaderFaultView::NoColon { entry } => "header `"@ + entry
                    + "` is missing a colon; expected \"Name: value\""@,
                HeaderFaultView::BadName { name } => "`"@ + name
                    + "` is not a valid header name"@,
                HeaderFaultView::BadValue { value, name } => "`"@ + value
                    + "` is not a valid value for `"@ + name + "`"@,
            }),
    {
        match self {
            HeaderFault::NoColon { entry } => {
                let mut m = joined("header `", entry.as_str());
                m.append("` is missing a colon; expected \"Name: value\"");
                m
            },
            HeaderFault::BadName { name } => {
                let mut m = joined("`", name.as_str());
                m.append("` is not a valid header name");
                m
            },
            HeaderFault::BadValue { value, name } => {
                let mut m = joined("`", value.as_str());
                m.append("` is not a valid value for `");
                m.append(name.as_str());
                m.append("`");
                m
            },
        }
    }
}

/// One header: its name in lower case and the bytes of its value.
pub open spec fn one_header(entry: Seq<char>) -> Result<(Seq<char>, Seq<u8>), HeaderFaultView> {
    match text::split_pair(entry, ':') {
        None => Err(HeaderFaultView::NoColon { entry }),
        Some((name, value)) => {
            let bare = text::trimmed(name, Fringe::Space);
            let held = text::trimmed(value, Fringe::Space);
            if !is_header_name(encode_utf8(bare)) {
                Err(HeaderFaultView::BadName { name })
            } else if !is_header_value(encode_utf8(held)) {
                Err(HeaderFaultView::BadValue { value, name: text::lowered(bare) })
            } else {
                Ok((text::lowered(bare), encode_utf8(held)))
            }
        },
    }
}

/// The headers that a list of entries gives, or the first fault in it. A name
/// that comes twice has both values.
pub open spec fn all_headers(raw: Seq<Seq<char>>) -> Result<
    Map<Seq<char>, Seq<Seq<u8>>>,
    HeaderFaultView,
>
    decreases raw.len(),
{
    if raw.len() == 0 {
        Ok(headers::no_entries())
    } else {
        match all_headers(raw.drop_last()) {
            Err(e) => Err(e),
            Ok(map) => match one_header(raw.last()) {
                Err(e) => Err(e),
                Ok((name, value)) => Ok(map.insert(name, values_of(map, name).push(value))),
            },
        }
    }
}

/// The first fault stays the answer, whatever follows it.
proof fn lemma_fault_stays(raw: Seq<Seq<char>>, n: int)
    requires
        0 <= n <= raw.len(),
        all_headers(raw.take(n)) is Err,
    ensures
        all_headers(raw) == all_headers(raw.take(n)),
    decreases raw.len(),
{
    if n == raw.len() {
        assert(raw.take(n) =~= raw);
    } else {
        assert(raw.drop_last().take(n) =~= raw.take(n));
        lemma_fault_stays(raw.drop_last(), n);
    }
}

/// The headers that come before the first fault in a list of entries.
pub open spec fn sound_headers(raw: Seq<Seq<char>>) -> Map<Seq<char>, Seq<Seq<u8>>>
    decreases raw.len(),
{
    match all_headers(raw) {
        Ok(map) => map,
        Err(_) => if raw.len() == 0 {
            headers::no_entries()
        } else {
            sound_headers(raw.drop_last())
        },
    }
}

/// Whether a map is sure to take the headers that come before the first fault.
pub open spec fn are_few(raw: Seq<Seq<char>>) -> bool {
    sound_headers(raw).dom().len() <= MAX_HEADERS
}

/// As long as there is no fault, the names only become more.
proof fn lemma_sound_names(raw: Seq<Seq<char>>, n: int)
    requires
        0 <= n <= raw.len(),
    ensures
        sound_headers(raw).dom().finite(),
        sound_headers(raw).dom().len() <= raw.len(),
        all_headers(raw.take(n)) matches Ok(map) ==> map.dom().subset_of(sound_headers(raw).dom())
            && map.dom().finite() && map.dom().len() <= sound_headers(raw).dom().len(),
    decreases raw.len(),
{
    if n == raw.len() {
        assert(raw.take(n) =~= raw);
        if n > 0 {
            lemma_sound_names(raw.drop_last(), n - 1);
        }
    } else {
        lemma_sound_names(raw.drop_last(), n);
        assert(raw.drop_last().take(n) =~= raw.take(n));
    }
    if let Ok(map) = all_headers(raw.take(n)) {
        vstd::set_lib::lemma_len_subset(map.dom(), sound_headers(raw).dom());
    }
}

/// What a fault leaves of the headers before it.
proof fn lemma_sound_before_fault(raw: Seq<Seq<char>>, n: int)
    requires
        0 <= n < raw.len(),
        all_headers(raw.take(n)) is Ok,
        all_headers(raw.take(n + 1)) is Err,
    ensures
        sound_headers(raw) == all_headers(raw.take(n))->Ok_0,
    decreases raw.len(),
{
    lemma_fault_stays(raw, n + 1);
    reveal_with_fuel(sound_headers, 2);
    if n + 1 == raw.len() {
        assert(raw.drop_last() =~= raw.take(n));
    } else {
        assert(raw.drop_last().take(n) =~= raw.take(n));
        assert(raw.drop_last().take(n + 1) =~= raw.take(n + 1));
        lemma_sound_before_fault(raw.drop_last(), n);
    }
}

/// Read one header of the command line: its name in lower case, and the two
/// halves of the header.
fn parse_header(raw: &String) -> (r: Result<(Vec<char>, HeaderName, HeaderValue), HeaderFault>)
    ensures
        match one_header(raw@) {
            Ok((name, value)) => r matches Ok(h) && h.0@ == name && headers::name_text(h.1) == name
                && headers::value_bytes(h.2) == value,
            Err(e) => r matches Err(f) && f@ == e,
        },
{
    let entry = text::chars_of(raw.as_str());
    let (name, value) = match text::split_once(entry.as_slice(), ':') {
        Some(pair) => pair,
        None => return Err(HeaderFault::NoColon { entry: raw.clone() }),
    };
    let bare = text::text_of(text::trim(name, Fringe::Space));
    let held = text::text_of(text::trim(value, Fringe::Space));
    let lower = text::to_lower(text::chars_of(bare.as_str()).as_slice());
    let parsed_name = match HeaderName::from_bytes(bare.as_str().as_bytes()) {
        Ok(n) => n,
        Err(_) => return Err(HeaderFault::BadName { name: text::text_of(name) }),
    };
    let parsed_value = match HeaderValue::from_str(held.as_str()) {
        Ok(v) => v,
        Err(_) => return Err(
            HeaderFault::BadValue {
                value: text::text_of(value),
                name: text::text_of(lower.as_slice()),
            },
        ),
    };
    proof {
        headers::lemma_lowered_name(bare@);
    }
    Ok((lower, parsed_name, parsed_value))
}

/// Whether a map is sure to take the headers of the command line.
pub fn headers_fit(raw: &Vec<String>) -> (r: bool)
    ensures
        r == are_few(components(raw@)),
{
    let ghost all = components(raw@);
    proof {
        lemma_sound_names(all, 0);
    }
    if raw.len() <= MAX_HEADERS {
        return true;
    }
    let mut names = Names::new();
    let mut i: usize = 0;
    assert(all.take(0) =~= Seq::<Seq<char>>::empty());
    assert(headers::no_entries().dom() =~= Set::<Seq<char>>::empty());
    while i < raw.len()
        invariant
            i <= raw.len(),
            all == components(raw@),
            names.wf(),
            all_headers(all.take(i as int)) matches Ok(map) && names@ == map.dom(),
        decreases raw.len() - i,
    {
        proof {
            assert(all.take(i + 1).drop_last() =~= all.take(i as int));
            assert(all.take(i + 1).last() == raw@[i as int]@);
        }
        match parse_header(&raw[i]) {
            Err(_) => {
                proof {
                    lemma_sound_before_fault(all, i as int);
                }
                return names.len() <= MAX_HEADERS;
            },
            Ok((name, _, _)) => {
                names.insert(name);
            },
        }
        i = i + 1;
        assert(names@ =~= all_headers(all.take(i as int))->Ok_0.dom());
        if names.len() > MAX_HEADERS {
            proof {
                lemma_sound_names(all, i as int);
            }
            return false;
        }
    }
    assert(all.take(i as int) =~= all);
    names.len() <= MAX_HEADERS
}

/// Read the headers of the command line.
pub fn parse_headers(raw: &Vec<String>) -> (r: Result<HeaderMap, HeaderFault>)
    requires
        are_few(components(raw@)),
    ensures
        match all_headers(components(raw@)) {
            Ok(map) => r matches Ok(m) && headers::entries(m) == map,
            Err(e) => r matches Err(f) && f@ == e,
        },
{
    let capacity: usize = if raw.len() <= MAX_HEADERS {
        raw.len()
    } else {
        MAX_HEADERS
    };
    let mut map = headers::map_with_capacity(capacity);
    let ghost all = components(raw@);
    let mut i: usize = 0;
    assert(all.take(0) =~= Seq::<Seq<char>>::empty());
    while i < raw.len()
        invariant
            i <= raw.len(),
            all == components(raw@),
            are_few(all),
            all_headers(all.take(i as int)) == Ok::<_, HeaderFaultView>(headers::entries(map)),
        decreases raw.len() - i,
    {
        proof {
            assert(all.take(i + 1).drop_last() =~= all.take(i as int));
            assert(all.take(i + 1).last() == raw@[i as int]@);
            lemma_sound_names(all, i as int);
        }
        match parse_header(&raw[i]) {
            Err(f) => {
                proof {
                    lemma_fault_stays(all, i + 1);
                }
                return Err(f);
            },
            Ok((_, name, value)) => {
                headers::map_append(&mut map, name, value);
            },
        }
        i = i + 1;
    }
    assert(all.take(i as int) =~= all);
    Ok(map)
}

// ----------------------------------------------------------------------- knobs
/// The engine's configuration for one run.
pub open spec fn run_settings(
    defaults: EngineConfig,
    connections: u32,
    sequential: bool,
    min_split_mb: u64,
    flat: bool,
    out: Option<String>,
) -> EngineConfig {
    EngineConfig {
        max_connections: if sequential {
            1
        } else {
            connections
        },
        min_split_size: (min_split_mb * 1024 * 1024) as u64,
        organize_by_type: !flat,
        download_root: match out {
            Some(dir) => dir,
            None => defaults.download_root,
        },
        ..defaults
    }
}

/// The engine's configuration for one run: the defaults, with what the command
/// line asks for.
pub fn run_config(
    defaults: EngineConfig,
    connections: u32,
    sequential: bool,
    min_split_mb: u64,
    flat: bool,
    out: Option<String>,
) -> (r: EngineConfig)
    requires
        1 <= min_split_mb <= 1024,
    ensures
        r == run_settings(defaults, connections, sequential, min_split_mb, flat, out),
{
    let mut cfg = defaults;
    cfg.max_connections = if sequential {
        1
    } else {
        connections
    };
    cfg.min_split_size = min_split_mb * 1024 * 1024;
    cfg.organize_by_type = !flat;
    if let Some(dir) = out {
        cfg.download_root = dir;
    }
    cfg
}

// ---------------------------------------------------------------------- output
/// What is said beside the progress bar. `speed` is the current rate in bytes per
/// second.
pub fn progress_line(p: &ProgressSnapshot, speed: u64) -> (r: String)
    ensures
        r@ == progress::bytes_text(speed as nat) + "/s"@ + " · "@ + text::decimal(
            p.active_connections as nat,
        ) + " of "@ + text::decimal(p.segments as nat) + " seg active"@ + (match p.eta_secs {
            Some(s) => " · ETA "@ + progress::duration_text(s as nat),
            None => ""@,
        }),
{
    let mut m = progress::format_speed(speed);
    m.append(" · ");
    m.append(text::decimal_of(p.active_connections as u64).as_str());
    m.append(" of ");
    m.append(text::decimal_of(p.segments as u64).as_str());
    m.append(" seg active");
    let tail: String = match p.eta_secs {
        Some(s) => joined(" · ETA ", progress::format_duration(s).as_str()),
        None => "".to_owned(),
    };
    m.append(tail.as_str());
    m
}

/// How much, how long and how fast, once a download is done. `average` is its
/// rate in bytes per second.
pub fn summary_line(o: &DownloadOutcome, average: u64) -> (r: String)
    ensures
        r@ == "  "@ + progress::bytes_text(o.bytes as nat) + " in "@ + progress::duration_text(
            (o.elapsed_ms / 1000) as nat,
        ) + " ("@ + (progress::bytes_text(average as nat) + "/s"@) + " average)"@,
{
    let mut m = joined("  ", progress::format_bytes(o.bytes).as_str());
    m.append(" in ");
    m.append(progress::format_duration(o.elapsed_ms / 1000).as_str());
    m.append(" (");
    m.append(progress::format_speed(average).as_str());
    m.append(" average)");
    m
}

/// How a finished download was fetched.
pub fn detail_line(o: &DownloadOutcome) -> (r: String)
    ensures
        r@ == "  "@ + text::decimal(o.segments_used as nat) + " segments · "@
            + o.category.folder_name() + " · ranges "@ + (if o.used_ranges {
            "yes"@
        } else {
            "no"@
        }) + " · "@ + (if o.resumed {
            "resumed"@
        } else {
            "fresh download"@
        }),
{
    let mut m = joined("  ", text::decimal_of(o.segments_used as u64).as_str());
    m.append(" segments · ");
    m.append(o.category.folder());
    m.append(" · ranges ");
    m.append(
        if o.used_ranges {
            "yes"
        } else {
            "no"
        },
    );
    m.append(" · ");
    m.append(
        if o.resumed {
            "resumed"
        } else {
            "fresh download"
        },
    );
    m
}

/// A header on the command line is its name, in whatever case, and its value, without
/// the blanks around them; one without a colon is refused as it stands.
pub proof fn law_a_header_entry_is_read(name: Seq<char>, value: Seq<char>)
    requires
        headers::is_plain_name(name),
        headers::is_plain_value(value),
        value.len() > 0 ==> value[0] != ' ' && value.last() != ' ',
        !headers::denylist().contains(text::lowered(name)),
    ensures
        one_header(name + seq![':'] + (seq![' '] + value)) == Ok::<_, HeaderFaultView>(
            (text::lowered(name), encode_utf8(value)),
        ),
        one_header(name) == Err::<(Seq<char>, Seq<u8>), _>(HeaderFaultView::NoColon { entry: name }),
{
    headers::law_an_ordinary_header_is_passed_on(name, value);
    if name.contains(':') {
        let i = choose|i: int| 0 <= i < name.len() && name[i] == ':';
        assert('a' <= name[i] <= 'z' || 'A' <= name[i] <= 'Z' || '0' <= name[i] <= '9' || name[i]
            == '-');
    }
    text::law_a_pair_is_parted(name, ':', seq![' '] + value);
    assert('a' <= name[0] <= 'z' || 'A' <= name[0] <= 'Z' || '0' <= name[0] <= '9' || name[0]
        == '-');
    let last = name[name.len() - 1];
    assert('a' <= last <= 'z' || 'A' <= last <= 'Z' || '0' <= last <= '9' || last == '-');
    text::law_trimming_leaves_the_rest(name, Fringe::Space);
    if value.len() > 0 {
        assert(' ' <= value[0] <= '~');
        assert(' ' <= value[value.len() - 1] <= '~');
    }
    text::law_what_is_around_is_taken_off(seq![' '], value, Seq::empty(), Fringe::Space);
    assert(seq![' '] + value + Seq::<char>::empty() =~= seq![' '] + value);
}

/// Each header is added to those before it: a name that comes again keeps the values
/// it had, and no other name is touched. A faulty one is the answer.
pub proof fn law_headers_are_added_up(raw: Seq<Seq<char>>, entry: Seq<char>, other: Seq<char>)
    requires
        all_headers(raw) is Ok,
    ensures
        one_header(entry) matches Ok((name, value)) ==> (all_headers(
            raw.push(entry),
        ) matches Ok(after) && {
            let before = all_headers(raw)->Ok_0;
            &&& after.dom().contains(name) && after[name].len() > 0 && after[name].last() == value
            &&& before.dom().contains(name) ==> after[name].drop_last() == before[name]
            &&& !before.dom().contains(name) ==> after[name].len() == 1
            &&& other != name ==> after.dom().contains(other) == before.dom().contains(other)
                && after[other] == before[other]
        }),
        one_header(entry) matches Err(f) ==> all_headers(raw.push(entry)) == Err::<
            Map<Seq<char>, Seq<Seq<u8>>>,
            _,
        >(f),
{
    assert(raw.push(entry).drop_last() =~= raw);
    if let Ok((name, value)) = one_header(entry) {
        let before = all_headers(raw)->Ok_0;
        let after = all_headers(raw.push(entry))->Ok_0;
        assert(after[name].drop_last() =~= values_of(before, name));
    }
}

/// The command line turns the knobs it names and leaves the others as they are.
pub proof fn law_only_what_is_asked_is_changed(
    defaults: EngineConfig,
    connections: u32,
    sequential: bool,
    min_split_mb: u64,
    flat: bool,
    out: Option<String>,
)
    requires
        1 <= min_split_mb <= 1024,
    ensures
        ({
            let c = run_settings(defaults, connections, sequential, min_split_mb, flat, out);
            &&& sequential ==> c.max_connections == 1
            &&& !sequential ==> c.max_connections == connections
            &&& c.min_split_size == min_split_mb * 1048576
            &&& c.organize_by_type == !flat
            &&& out matches Some(d) ==> c.download_root == d
            &&& out is None ==> c.download_root == defaults.download_root
            &&& c.temp_dir == defaults.temp_dir && c.use_temp_dir == defaults.use_temp_dir
            &&& c.max_retries == defaults.max_retries && c.write_buffer == defaults.write_buffer
            &&& c.user_agent == defaults.user_agent
            &&& c.connect_timeout_ms == defaults.connect_timeout_ms && c.read_timeout_ms
                == defaults.read_timeout_ms
        }),
{
}

} // verus!
