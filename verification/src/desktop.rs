//! What the desktop window asks of the list.

use vstd::prelude::*;

use crate::config::{components, EngineConfig};
use crate::error::joined;
use crate::header_list::HeaderList;
use crate::headers;
use crate::link;
use crate::link::{parsed_link, Link, LinkView};
use crate::manager::{
    law_what_was_added_is_fetched, Added, AttemptView, BeginView, Manager, ManagerView, RequestView,
};
use crate::model::{EventView, NewDownload};
use crate::text;

verus! {

/// The settings that the window shows.
#[derive(Debug, Clone, PartialEq, Eq)]
pub struct ConfigInfo {
    pub max_active: usize,
    pub max_connections: u32,
    pub download_root: String,
    pub temp_dir: String,
    pub use_temp_dir: bool,
}

/// The settings in force.
pub fn get_config(cfg: &EngineConfig, manager: &Manager) -> (r: ConfigInfo)
    ensures
        r.max_active == manager@.max_active,
        r.max_connections == cfg.max_connections,
        r.download_root@ == cfg.download_root@,
        r.temp_dir@ == cfg.temp_dir@,
        r.use_temp_dir == cfg.use_temp_dir,
{
    ConfigInfo {
        max_active: manager.max_active(),
        max_connections: cfg.max_connections,
        download_root: cfg.download_root.clone(),
        temp_dir: cfg.temp_dir.clone(),
        use_temp_dir: cfg.use_temp_dir,
    }
}

/// The list after a download was typed in, and the attempt to run.
pub open spec fn typed(
    m: ManagerView,
    url: LinkView,
    pairs: Seq<(Seq<char>, Seq<char>)>,
    now: u64,
) -> (ManagerView, AttemptView) {
    (
        m.added(url, headers::kept_headers(pairs), None, None, now),
        m.first_attempt(url, None, None),
    )
}

/// A download that was typed in is fetched from that URL with the headers that may be
/// sent, under the name and in the folder that the engine finds.
pub proof fn law_what_was_typed_in_is_fetched(
    m: ManagerView,
    url: LinkView,
    pairs: Seq<(Seq<char>, Seq<char>)>,
    now: u64,
)
    requires
        m.next_id < u64::MAX,
        m.next_gen < u64::MAX,
    ensures
        ({
            let (after, attempt) = typed(m, url, pairs, now);
            after.begun(attempt) == (
                after,
                BeginView::Run(
                    RequestView {
                        url,
                        headers: headers::kept_headers(pairs),
                        filename: None,
                        target_dir: None,
                    },
                ),
            )
        }),
{
    law_what_was_added_is_fetched(m, url, headers::kept_headers(pairs), None, None, now);
}

/// Add a download that the user typed in, given what its URL parses to. Only a
/// URL that does not parse is refused, in the parser's own words.
pub fn add_parsed(
    manager: &mut Manager,
    parsed: Result<Link, String>,
    headers: &HeaderList,
    now: u64,
) -> (r: Result<Added, String>)
    requires
        headers::are_few(headers@),
        old(manager)@.wf(),
        old(manager)@.next_id < u64::MAX,
        old(manager)@.next_gen < u64::MAX,
    ensures
        final(manager)@.wf(),
        match link::link_result(parsed) {
            Err(e) => r matches Err(m) && m@ == e && final(manager)@ == old(manager)@,
            Ok(url) => {
                &&& final(manager)@ == typed(old(manager)@, url, headers@, now).0
                &&& r matches Ok(a) && a.id == old(manager)@.next_id && a.attempt@ == typed(
                    old(manager)@,
                    url,
                    headers@,
                    now,
                ).1 && a.event@ == EventView::Added(final(manager)@.entries[a.id])
            },
        },
{
    match parsed {
        Err(e) => Err(e),
        Ok(url) => {
            let new = NewDownload::new(url).with_headers(headers::sanitize(headers.pairs()));
            Ok(manager.add(new, now))
        },
    }
}

/// Add a download that the user typed in.
pub fn add_download(manager: &mut Manager, url: &str, headers: &HeaderList, now: u64) -> (r: Result<
    Added,
    String,
>)
    requires
        headers::are_few(headers@),
        old(manager)@.wf(),
        old(manager)@.next_id < u64::MAX,
        old(manager)@.next_gen < u64::MAX,
    ensures
        final(manager)@.wf(),
        match parsed_link(url@) {
            Err(e) => r matches Err(m) && m@ == e && final(manager)@ == old(manager)@,
            Ok(link) => {
                &&& final(manager)@ == typed(old(manager)@, link, headers@, now).0
                &&& r matches Ok(a) && a.id == old(manager)@.next_id && a.attempt@ == typed(
                    old(manager)@,
                    link,
                    headers@,
                    now,
                ).1 && a.event@ == EventView::Added(final(manager)@.entries[a.id])
            },
        },
{
    let parsed = Link::parse(url);
    add_parsed(manager, parsed, headers, now)
}

/// The window that shows one download's progress, and the page it shows.
pub fn download_dialog(id: u64) -> (r: (String, String))
    ensures
        r.0@ == "download-dialog-"@ + text::decimal(id as nat),
        r.1@ == "download_dialog.html?id="@ + text::decimal(id as nat),
{
    let number = text::decimal_of(id);
    (
        joined("download-dialog-", number.as_str()),
        joined("download_dialog.html?id=", number.as_str()),
    )
}

/// A program to start, and what to start it with.
#[derive(Debug, Clone, PartialEq, Eq)]
pub struct Launch {
    pub program: String,
    pub args: Vec<String>,
}

/// What to start to open a finished file with the program it belongs to. Only
/// Windows has one command for that.
pub fn open_file(path: &str, windows: bool) -> (r: Option<Launch>)
    ensures
        match r {
            Some(l) => windows && l.program@ == "cmd"@ && components(l.args@) == seq![
                "/C"@,
                "start"@,
                ""@,
                path@,
            ],
            None => !windows,
        },
{
    if !windows {
        return None;
    }
    let args: Vec<String> = vec![
        "/C".to_owned(),
        "start".to_owned(),
        "".to_owned(),
        path.to_owned(),
    ];
    assert(components(args@) =~= seq!["/C"@, "start"@, ""@, path@]);
    Some(Launch { program: "cmd".to_owned(), args })
}

/// What to start to show a file in its folder: the file selected while it is
/// there, else the folder it was in, if it has one.
pub fn open_folder(path: &str, windows: bool, exists: bool, parent: Option<&str>) -> (r: Option<
    Launch,
>)
    ensures
        match r {
            Some(l) => windows && l.program@ == "explorer"@ && if exists {
                components(l.args@) == seq!["/select,"@, path@]
            } else {
                parent is Some && components(l.args@) == seq![parent->0@]
            },
            None => !windows || (!exists && parent is None),
        },
{
    if !windows {
        return None;
    }
    let args: Vec<String> = if exists {
        vec!["/select,".to_owned(), path.to_owned()]
    } else {
        match parent {
            Some(dir) => vec![dir.to_owned()],
            None => return None,
        }
    };
    proof {
        if exists {
            assert(components(args@) =~= seq!["/select,"@, path@]);
        } else {
            assert(components(args@) =~= seq![parent->0@]);
        }
    }
    Some(Launch { program: "explorer".to_owned(), args })
}

} // verus!
