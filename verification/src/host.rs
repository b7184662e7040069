//! The process the browser starts: what it does with each message, and the
//! course of a download it takes over.
//!
//! A download goes to the running app if there is one, and is fetched here
//! otherwise. Each is a job that moves from stage to stage; whoever runs it
//! performs what a stage asks for and hands back what came of it.

use reqwest::header::HeaderMap;
use vstd::prelude::*;

use crate::categorize::Category;
use crate::client::{ClientError, ClientErrorView};
use crate::config::components;
use crate::download::{DownloadOutcome, DownloadRequest};
use crate::error::{joined, Error, ErrorView};
use crate::headers;
use crate::link;
use crate::link::{download_link, parsed_link, Link, LinkView};
use crate::lock::Claim;
use crate::media;
use crate::media::{opt_stream, Stream, StreamView};
use crate::naming::opt_text;
use crate::progress::ProgressSnapshot;
use crate::protocol::{
    CommandView, DownloadCommand, Incoming, Outgoing, OutgoingView, PROTOCOL_VERSION,
};
use crate::session::{wanted_dir, wanted_dir_of, wanted_name, wanted_name_of};
use crate::state::copy_opt;
use crate::text;
use crate::wire::{AddRequest, Welcome, WelcomeView};

verus! {

/// How many downloads run at once. Anything beyond this waits for a slot.
pub const MAX_CONCURRENT_DOWNLOADS: usize = 4;

/// How often, and at what distance, a freshly started app is looked for.
pub const LAUNCH_POLLS: u32 = 15;

pub const LAUNCH_POLL_MS: u64 = 100;

// ------------------------------------------------------------------ the rules
/// Whether retrying later can plausibly succeed.
pub open spec fn may_resume(e: ErrorView) -> bool {
    match e {
        ErrorView::RetriesExhausted(_) | ErrorView::Http(_) | ErrorView::Io(_) => true,
        ErrorView::Status(s) => s == 408 || s == 429 || 500 <= s < 600,
        _ => false,
    }
}

/// Whether retrying this download later can plausibly succeed, and therefore
/// whether to offer "resume" or "this cannot be downloaded".
///
/// Distinct from a retry of one request right away: an exhausted retry budget is
/// not retryable but very much resumable, because the network may simply have
/// been down. A file that changed or shrank is neither.
pub fn is_resumable(e: &Error) -> (r: bool)
    ensures
        r == may_resume(e@),
{
    match e {
        Error::RetriesExhausted(_) | Error::Http(_) | Error::Io(_) => true,
        Error::Status(s) => *s == 408 || *s == 429 || (*s >= 500 && *s < 600),
        _ => false,
    }
}

/// Check the URL of a download, given what it parses to.
pub fn validate_parsed(parsed: Result<Link, String>) -> (r: Result<Link, String>)
    ensures
        link::link_result(r) == download_link(
            link::link_result(parsed),
            "http and https downloads"@,
        ),
{
    link::check_download(parsed, "http and https downloads")
}

/// Check the URL of a download. This process runs outside the browser's sandbox,
/// so it must not become a service that opens any URL scheme.
pub fn validate_url(raw: &str) -> (r: Result<Link, String>)
    ensures
        link::link_result(r) == download_link(parsed_link(raw@), "http and https downloads"@),
{
    validate_parsed(Link::parse(raw))
}

/// The headers of a command, as far as the engine takes them.
pub fn browser_headers(cmd: &DownloadCommand) -> (r: HeaderMap)
    requires
        headers::are_few(cmd.headers@),
    ensures
        headers::entries(r) == headers::kept_headers(cmd.headers@),
{
    headers::sanitize(cmd.headers.pairs())
}

/// Why the engine did not start.
pub fn engine_failure(e: &Error) -> (r: String)
    ensures
        r@ == "FDM's download engine failed to start: "@ + e@.message(),
{
    joined("FDM's download engine failed to start: ", e.message().as_str())
}

/// Where this process keeps its locks, as components to join. Per user on
/// purpose: a shared directory would let one user's download block another's.
pub fn lock_dir(local_data: Option<&str>, system_temp: &str) -> (r: Vec<String>)
    ensures
        components(r@) == seq![
            match local_data {
                Some(d) => d@,
                None => system_temp@,
            },
            "FDM"@,
            "locks"@,
        ],
{
    let base: &str = match local_data {
        Some(d) => d,
        None => system_temp,
    };
    let r: Vec<String> = vec![base.to_owned(), "FDM".to_owned(), "locks".to_owned()];
    assert(components(r@) =~= seq![base@, "FDM"@, "locks"@]);
    r
}

// -------------------------------------------------------------------- messages
/// A download that can be stopped: the id it goes by, and the job behind it.
#[derive(Debug, Clone, Copy, PartialEq, Eq, Structural)]
pub struct Running {
    pub id: u64,
    pub job: u64,
}

/// The downloads of this process.
pub struct Host {
    running: Vec<Running>,
    next_job: u64,
}

/// What the downloads of this process are, mathematically.
#[verifier::ext_equal]
pub struct HostView {
    pub running: Seq<Running>,
    /// The number of the next job.
    pub next_job: u64,
}

impl View for Host {
    type V = HostView;

    closed spec fn view(&self) -> HostView {
        HostView { running: self.running@, next_job: self.next_job }
    }
}

/// The ids of some downloads.
pub open spec fn ids_of(running: Seq<Running>) -> Seq<u64> {
    running.map_values(|r: Running| r.id)
}

/// The downloads that go by other ids.
pub open spec fn others(running: Seq<Running>, id: u64) -> Seq<Running>
    decreases running.len(),
{
    if running.len() == 0 {
        Seq::empty()
    } else if running.last().id == id {
        others(running.drop_last(), id)
    } else {
        others(running.drop_last(), id).push(running.last())
    }
}

impl HostView {
    /// No two downloads go by one id, and every job is one that was numbered.
    pub open spec fn wf(self) -> bool {
        &&& forall|i: int, j: int|
            0 <= i < j < self.running.len() ==> (#[trigger] self.running[i]).id != (
            #[trigger] self.running[j]).id
        &&& forall|i: int|
            0 <= i < self.running.len() ==> (#[trigger] self.running[i]).job < self.next_job
    }

    /// Where a download is.
    pub open spec fn place_of(self, id: u64) -> Option<int> {
        if exists|i: int| 0 <= i < self.running.len() && (#[trigger] self.running[i]).id == id {
            Some(
                choose|i: int| 0 <= i < self.running.len() && (#[trigger] self.running[i]).id == id,
            )
        } else {
            None
        }
    }

    /// With a new job under an id. An earlier download of that id can no longer
    /// be stopped.
    pub open spec fn registered(self, id: u64) -> HostView {
        HostView {
            running: others(self.running, id).push(Running { id, job: self.next_job }),
            next_job: (self.next_job + 1) as u64,
        }
    }

    /// Without the download of an id.
    pub open spec fn unregistered(self, id: u64) -> HostView {
        HostView { running: others(self.running, id), ..self }
    }
}

proof fn lemma_others(running: Seq<Running>, id: u64)
    ensures
        forall|i: int|
            0 <= i < others(running, id).len() ==> (#[trigger] others(running, id)[i]).id != id
                && running.contains(others(running, id)[i]),
    decreases running.len(),
{
    if running.len() > 0 {
        let front = running.drop_last();
        lemma_others(front, id);
        assert forall|i: int| 0 <= i < others(running, id).len() implies (#[trigger] others(
            running,
            id,
        )[i]).id != id && running.contains(others(running, id)[i]) by {
            if i < others(front, id).len() {
                assert(others(running, id)[i] == others(front, id)[i]);
                let k = choose|k: int| 0 <= k < front.len() && front[k] == others(front, id)[i];
                assert(running[k] == front[k]);
            } else {
                assert(running[running.len() - 1] == running.last());
            }
        }
    }
}

proof fn lemma_others_distinct(running: Seq<Running>, id: u64)
    requires
        forall|i: int, j: int|
            0 <= i < j < running.len() ==> (#[trigger] running[i]).id != (
            #[trigger] running[j]).id,
    ensures
        forall|i: int, j: int|
            0 <= i < j < others(running, id).len() ==> (#[trigger] others(running, id)[i]).id != (
            #[trigger] others(running, id)[j]).id,
    decreases running.len(),
{
    if running.len() > 0 {
        let front = running.drop_last();
        lemma_others_distinct(front, id);
        lemma_others(front, id);
        let kept = others(running, id);
        assert forall|i: int, j: int| 0 <= i < j < kept.len() implies (#[trigger] kept[i]).id != (
        #[trigger] kept[j]).id by {
            assert(kept[i] == others(front, id)[i]);
            if j < others(front, id).len() {
                assert(kept[j] == others(front, id)[j]);
            } else {
                let k = choose|k: int| 0 <= k < front.len() && front[k] == others(front, id)[i];
                assert(running[k].id != running[running.len() - 1].id);
            }
        }
    }
}

/// Registering and unregistering keep every id unique, so a stop reaches the
/// download that was last taken over under its id, and no other.
pub proof fn law_a_stop_reaches_one_job(m: HostView, id: u64)
    requires
        m.wf(),
        m.next_job < u64::MAX,
    ensures
        m.registered(id).wf(),
        m.registered(id).place_of(id) matches Some(i) && m.registered(id).running[i].job
            == m.next_job,
        m.unregistered(id).wf(),
        m.unregistered(id).place_of(id) is None,
{
    lemma_others(m.running, id);
    lemma_others_distinct(m.running, id);
    let kept = others(m.running, id);
    assert forall|i: int| 0 <= i < kept.len() implies (#[trigger] kept[i]).job < m.next_job by {
        let k = choose|k: int| 0 <= k < m.running.len() && m.running[k] == kept[i];
        assert(m.running[k].job < m.next_job);
    }
    let after = m.registered(id).running;
    assert(after[after.len() - 1].id == id);
    assert(forall|i: int| 0 <= i < kept.len() ==> #[trigger] after[i] == kept[i]);
}

/// What a message asks for.
pub enum HostStep {
    Send(Outgoing),
    /// Describe the app, or this process where there is none.
    Describe { id: Option<u64> },
    /// Stop a job. The job itself reports its end.
    Stop { job: u64 },
    Take(DownloadCommand),
}

/// Whether a message is of another version.
pub open spec fn mismatched(protocol: Option<u32>) -> bool {
    protocol is Some && protocol->0 != PROTOCOL_VERSION
}

/// What a message asks for, given the downloads there are.
pub open spec fn is_decision(host: HostView, msg: Incoming, r: HostStep) -> bool {
    match msg {
        Incoming::Ping { id, protocol } => if mismatched(protocol) {
            r matches HostStep::Send(m) && m@ == OutgoingView::version_mismatch(
                id,
                protocol->0,
            )
        } else {
            r == HostStep::Describe { id }
        },
        Incoming::Status { id } => r matches HostStep::Send(m) && m@ == (
        OutgoingView::Status { id, active: ids_of(host.running) }),
        Incoming::Cancel { id } => match host.place_of(id) {
            Some(i) => r == (HostStep::Stop { job: host.running[i].job }),
            None => r matches HostStep::Send(m) && m@ == OutgoingView::error(
                Some(id),
                "no such download is running"@,
            ),
        },
        Incoming::Download(cmd) => if mismatched(cmd.protocol) {
            r matches HostStep::Send(m) && m@ == OutgoingView::version_mismatch(
                Some(cmd.id),
                cmd.protocol->0,
            )
        } else {
            r == HostStep::Take(cmd)
        },
    }
}

impl Host {
    pub fn new() -> (r: Host)
        ensures
            r@ == (HostView { running: Seq::empty(), next_job: 0 }),
            r@.wf(),
    {
        Host { running: Vec::new(), next_job: 0 }
    }

    /// The job behind an id.
    pub fn job_of(&self, id: u64) -> (r: Option<u64>)
        ensures
            match r {
                Some(job) => exists|i: int|
                    0 <= i < self@.running.len() && #[trigger] self@.running[i] == (Running {
                        id,
                        job,
                    }),
                None => self@.place_of(id) is None,
            },
    {
        let mut i: usize = 0;
        while i < self.running.len()
            invariant
                i <= self.running.len(),
                forall|k: int| 0 <= k < i ==> (#[trigger] self.running[k]).id != id,
            decreases self.running.len() - i,
        {
            if self.running[i].id == id {
                assert(self@.running[i as int] == (Running { id, job: self.running[i as int].job }));
                return Some(self.running[i].job);
            }
            i = i + 1;
        }
        None
    }

    fn drop_id(&mut self, id: u64)
        ensures
            final(self)@ == old(self)@.unregistered(id),
    {
        let ghost all = self.running@;
        let mut kept: Vec<Running> = Vec::new();
        let mut i: usize = 0;
        assert(all.take(0) =~= Seq::<Running>::empty());
        while i < self.running.len()
            invariant
                i <= self.running.len(),
                self.running@ == all,
                kept@ == others(all.take(i as int), id),
            decreases self.running.len() - i,
        {
            assert(all.take(i + 1).drop_last() =~= all.take(i as int));
            if self.running[i].id != id {
                kept.push(self.running[i]);
            }
            i = i + 1;
        }
        assert(all.take(i as int) =~= all);
        self.running = kept;
    }

    /// Number a new job, which can be stopped by its id from now on.
    pub fn register(&mut self, id: u64) -> (r: u64)
        requires
            old(self)@.wf(),
            old(self)@.next_job < u64::MAX,
        ensures
            r == old(self)@.next_job,
            final(self)@ == old(self)@.registered(id),
            final(self)@.wf(),
    {
        proof {
            law_a_stop_reaches_one_job(self@, id);
        }
        self.drop_id(id);
        let job: u64 = self.next_job;
        self.running.push(Running { id, job });
        self.next_job = self.next_job + 1;
        job
    }

    /// A download is over: it can no longer be stopped.
    pub fn unregister(&mut self, id: u64)
        requires
            old(self)@.wf(),
        ensures
            final(self)@ == old(self)@.unregistered(id),
            final(self)@.wf(),
    {
        proof {
            lemma_others(self@.running, id);
            lemma_others_distinct(self@.running, id);
            let kept = others(self@.running, id);
            assert forall|i: int| 0 <= i < kept.len() implies (#[trigger] kept[i]).job
                < self@.next_job by {
                let k = choose|k: int|
                    0 <= k < self@.running.len() && self@.running[k] == kept[i];
                assert(self@.running[k].job < self@.next_job);
            }
        }
        self.drop_id(id);
    }

    /// The ids of everything that runs.
    pub fn active(&self) -> (r: Vec<u64>)
        ensures
            r@ == ids_of(self@.running),
    {
        let mut out: Vec<u64> = Vec::new();
        let mut i: usize = 0;
        while i < self.running.len()
            invariant
                i <= self.running.len(),
                out.len() == i,
                forall|k: int| 0 <= k < i ==> #[trigger] out[k] == self.running[k].id,
            decreases self.running.len() - i,
        {
            out.push(self.running[i].id);
            i = i + 1;
        }
        assert(out@ =~= ids_of(self@.running));
        out
    }

    /// Decide what a message asks for.
    pub fn dispatch(&self, msg: Incoming) -> (r: HostStep)
        requires
            self@.wf(),
        ensures
            is_decision(self@, msg, r),
    {
        match msg {
            Incoming::Ping { id, protocol } => {
                if let Some(theirs) = protocol {
                    if theirs != PROTOCOL_VERSION {
                        return HostStep::Send(Outgoing::version_mismatch(id, theirs));
                    }
                }
                HostStep::Describe { id }
            },
            Incoming::Status { id } => HostStep::Send(
                Outgoing::Status { id, active: self.active() },
            ),
            Incoming::Cancel { id } => match self.job_of(id) {
                Some(job) => {
                    proof {
                        let i = choose|i: int|
                            0 <= i < self@.running.len() && #[trigger] self@.running[i] == (
                            Running { id, job });
                        assert(self@.running[i].id == id);
                        let p = self@.place_of(id)->0;
                        assert(self@.running[p].id == id);
                        assert(p == i);
                    }
                    HostStep::Stop { job }
                },
                None => HostStep::Send(Outgoing::error(Some(id), "no such download is running")),
            },
            Incoming::Download(cmd) => {
                if let Some(theirs) = cmd.protocol {
                    if theirs != PROTOCOL_VERSION {
                        return HostStep::Send(Outgoing::version_mismatch(Some(cmd.id), theirs));
                    }
                }
                HostStep::Take(cmd)
            },
        }
    }
}

// ------------------------------------------------------------------------ ping
/// The folders of the categories, in order.
pub open spec fn category_folders() -> Seq<Seq<char>> {
    Category::in_order().map_values(|c: Category| c.folder_name())
}

fn folders() -> (r: Vec<&'static str>)
    ensures
        text::literals(r@) == category_folders(),
{
    let all = Category::all();
    let mut out: Vec<&'static str> = Vec::new();
    let mut i: usize = 0;
    while i < all.len()
        invariant
            i <= all.len(),
            all@ == Category::in_order(),
            out.len() == i,
            forall|k: int| 0 <= k < i ==> (#[trigger] out[k])@ == all[k].folder_name(),
        decreases all.len() - i,
    {
        out.push(all[i].folder());
        i = i + 1;
    }
    assert(text::literals(out@) =~= category_folders());
    out
}

/// A reply to a ping, about whoever owns the downloads.
pub fn pong_from(
    id: Option<u64>,
    version: &str,
    host_path: &str,
    download_root: &str,
    max_connections: u32,
) -> (r: Outgoing)
    ensures
        r@ == (OutgoingView::Pong {
            id,
            protocol: PROTOCOL_VERSION,
            version: version@,
            host_path: host_path@,
            download_root: download_root@,
            max_connections,
            categories: category_folders(),
        }),
{
    Outgoing::Pong {
        id,
        protocol: PROTOCOL_VERSION,
        version: version.to_owned(),
        host_path: host_path.to_owned(),
        download_root: download_root.to_owned(),
        max_connections,
        categories: folders(),
    }
}

/// What this process fetches with: its download root and its connections, or why
/// the engine did not start.
pub enum LocalEngine {
    Ready { download_root: String, max_connections: u32 },
    Failed(String),
}

/// The answer to a ping.
pub open spec fn pong(
    id: Option<u64>,
    version: Seq<char>,
    host_path: Seq<char>,
    app: Option<WelcomeView>,
    local: LocalEngine,
) -> OutgoingView {
    match app {
        Some(w) => OutgoingView::Pong {
            id,
            protocol: PROTOCOL_VERSION,
            version,
            host_path,
            download_root: w.download_root,
            max_connections: w.max_connections,
            categories: category_folders(),
        },
        None => match local {
            LocalEngine::Ready { download_root, max_connections } => OutgoingView::Pong {
                id,
                protocol: PROTOCOL_VERSION,
                version,
                host_path,
                download_root: download_root@,
                max_connections,
                categories: category_folders(),
            },
            LocalEngine::Failed(m) => OutgoingView::error(id, m@),
        },
    }
}

/// Answer a ping: the app describes itself where it runs, this process does
/// otherwise.
pub fn answer_ping(
    id: Option<u64>,
    version: &str,
    host_path: &str,
    app: Option<&Welcome>,
    local: &LocalEngine,
) -> (r: Outgoing)
    ensures
        r@ == pong(
            id,
            version@,
            host_path@,
            match app {
                Some(w) => Some(w@),
                None => None,
            },
            *local,
        ),
{
    match app {
        Some(w) => pong_from(id, version, host_path, w.download_root.as_str(), w.max_connections),
        None => match local {
            LocalEngine::Ready { download_root, max_connections } => pong_from(
                id,
                version,
                host_path,
                download_root.as_str(),
                *max_connections,
            ),
            LocalEngine::Failed(m) => Outgoing::error(id, m.as_str()),
        },
    }
}

// ----------------------------------------------------------------------- relay
/// What came of handing a download to the app.
pub enum Relay {
    /// The app accepted it: it is the app's from here on.
    Handed,
    /// No app is running.
    NotRunning,
    /// Something went wrong talking to the app.
    Failed(String),
}

/// What to do when the app cannot be reached.
pub enum Unreached {
    /// Start it, then look for it after a while.
    Launch { delay_ms: u64 },
    /// Look again after a while.
    Poll { delay_ms: u64 },
    GiveUp(Relay),
}

/// What a failure to reach the app comes to. `polls` counts the looks since it
/// was started, with the one that failed; before that there are none.
pub open spec fn is_unreached(e: ClientErrorView, polls: Option<u32>, r: Unreached) -> bool {
    match polls {
        None => if e is NotRunning {
            r == (Unreached::Launch { delay_ms: LAUNCH_POLL_MS })
        } else {
            r matches Unreached::GiveUp(Relay::Failed(m)) && m@ == e.message()
        },
        Some(n) => if n < LAUNCH_POLLS {
            r == (Unreached::Poll { delay_ms: LAUNCH_POLL_MS })
        } else {
            r == Unreached::GiveUp(Relay::NotRunning)
        },
    }
}

/// Judge a failure to reach the app.
pub fn connect_failed(e: &ClientError, polls: Option<u32>) -> (r: Unreached)
    ensures
        is_unreached(e@, polls, r),
{
    match polls {
        None => match e {
            ClientError::NotRunning => Unreached::Launch { delay_ms: LAUNCH_POLL_MS },
            _ => Unreached::GiveUp(Relay::Failed(e.message())),
        },
        Some(n) => if n < LAUNCH_POLLS {
            Unreached::Poll { delay_ms: LAUNCH_POLL_MS }
        } else {
            Unreached::GiveUp(Relay::NotRunning)
        },
    }
}

/// The search for the app: how often it was looked for since it was started.
pub struct Search {
    looks: Option<u32>,
}

impl View for Search {
    type V = Option<u32>;

    closed spec fn view(&self) -> Option<u32> {
        self.looks
    }
}

/// The looks since the app was started, with one more that failed.
pub open spec fn one_more_look(looks: Option<u32>) -> Option<u32> {
    match looks {
        Some(n) => if n < LAUNCH_POLLS {
            Some((n + 1) as u32)
        } else {
            Some(n)
        },
        None => None,
    }
}

impl Search {
    pub fn new() -> (r: Search)
        ensures
            r@ is None,
    {
        Search { looks: None }
    }

    /// The app was looked for and not reached.
    pub fn failed(&mut self, e: &ClientError) -> (r: Unreached)
        ensures
            is_unreached(e@, one_more_look(old(self)@), r),
            final(self)@ == (if r is Launch {
                Some(0)
            } else {
                one_more_look(old(self)@)
            }),
    {
        if let Some(n) = self.looks {
            if n < LAUNCH_POLLS {
                self.looks = Some(n + 1);
            }
        }
        let r = connect_failed(e, self.looks);
        if let Unreached::Launch { .. } = r {
            self.looks = Some(0);
        }
        r
    }
}

/// An app that was started is looked for a fixed number of times and no more:
/// every look but the last is followed by another, and none is followed by a
/// second start.
pub proof fn law_a_started_app_is_looked_for_so_often(
    e: ClientErrorView,
    looks: u32,
    r: Unreached,
)
    requires
        looks < LAUNCH_POLLS,
        is_unreached(e, one_more_look(Some(looks)), r),
    ensures
        r is Poll <==> looks + 1 < LAUNCH_POLLS,
        !(r is Poll) ==> r == Unreached::GiveUp(Relay::NotRunning),
{
}

/// Whether an answer to the request to add a download means this.
pub open spec fn is_relay(answer: Result<u64, ClientError>, r: Relay) -> bool {
    match answer {
        Ok(_) => r is Handed,
        Err(e) => r matches Relay::Failed(m) && m@ == e@.message(),
    }
}

/// What an answer to the request to add a download means.
pub fn relayed(answer: Result<u64, ClientError>) -> (r: Relay)
    ensures
        is_relay(answer, r),
{
    match answer {
        Ok(_) => Relay::Handed,
        Err(e) => Relay::Failed(e.message()),
    }
}

// ------------------------------------------------------------------------- job
/// A request to add a download, mathematically.
#[verifier::ext_equal]
pub struct AddView {
    pub url: Seq<char>,
    pub headers: Seq<(Seq<char>, Seq<char>)>,
    pub filename: Option<Seq<char>>,
    pub target_dir: Option<Seq<char>>,
    pub audio_url: Option<Seq<char>>,
}

/// What a request to add a download is.
pub open spec fn add_view(a: AddRequest) -> AddView {
    AddView {
        url: a.url@,
        headers: a.headers@,
        filename: opt_text(a.filename),
        target_dir: opt_text(a.target_dir),
        audio_url: opt_text(a.audio_url),
    }
}

/// A command, as the app is asked to add it: as it came, headers and all.
pub open spec fn add_of(cmd: CommandView) -> AddView {
    AddView {
        url: cmd.url,
        headers: cmd.headers,
        filename: cmd.filename,
        target_dir: cmd.target_dir,
        audio_url: cmd.audio_url,
    }
}

/// What the engine is asked to fetch, mathematically.
#[verifier::ext_equal]
pub struct FetchView {
    pub url: LinkView,
    pub headers: Map<Seq<char>, Seq<Seq<u8>>>,
    pub filename: Option<Seq<char>>,
    pub target_dir: Option<Seq<char>>,
}

/// What a request to the engine is.
pub open spec fn fetch_view(r: DownloadRequest) -> FetchView {
    FetchView {
        url: r.url@,
        headers: headers::entries(r.headers),
        filename: opt_text(r.filename),
        target_dir: opt_text(r.target_dir),
    }
}

/// A command, as the engine is asked to fetch it.
pub open spec fn fetch_of(cmd: CommandView, url: LinkView) -> FetchView {
    FetchView {
        url,
        headers: headers::kept_headers(cmd.headers),
        filename: wanted_name(cmd.filename),
        target_dir: wanted_dir(cmd.target_dir),
    }
}

/// Where a job stands.
pub enum Stage {
    /// A video page is being resolved to its stream.
    Resolving,
    /// The app is being asked to take the download.
    Relaying,
    /// The engine is being started.
    Starting { url: Link },
    /// The URL is being claimed against other processes.
    Claiming { url: Link },
    /// Claimed and announced; waiting for a slot.
    Queued { url: Link },
    Fetching,
    Over,
}

/// Where a job stands, mathematically.
#[verifier::ext_equal]
pub enum StageView {
    Resolving,
    Relaying,
    Starting { url: LinkView },
    Claiming { url: LinkView },
    Queued { url: LinkView },
    Fetching,
    Over,
}

impl View for Stage {
    type V = StageView;

    open spec fn view(&self) -> StageView {
        match self {
            Stage::Resolving => StageView::Resolving,
            Stage::Relaying => StageView::Relaying,
            Stage::Starting { url } => StageView::Starting { url: url@ },
            Stage::Claiming { url } => StageView::Claiming { url: url@ },
            Stage::Queued { url } => StageView::Queued { url: url@ },
            Stage::Fetching => StageView::Fetching,
            Stage::Over => StageView::Over,
        }
    }
}

/// What came of what a stage asked for.
pub enum JobEvent {
    /// The stream that the page resolved to, if it did.
    Resolved(Option<Stream>),
    Relayed(Relay),
    /// The engine is there, or why it is not.
    Engine(Result<(), String>),
    Claimed(Claim),
    /// A slot was granted, or the slots are gone; and whether the job was stopped
    /// meanwhile.
    Slot { granted: bool, stopped: bool },
    Progress(ProgressSnapshot),
    /// The transfer is over. A finished one comes with its path as it is shown.
    Ended(Result<(DownloadOutcome, String), Error>),
}

/// What a stage asks for.
pub enum Next {
    Resolve { url: String },
    Relay(AddRequest),
    StartEngine,
    Claim { url: String },
    /// Wait for a slot; the job can be stopped under this number.
    Queue { job: u64 },
    Fetch(DownloadRequest),
    /// Nothing but to carry on.
    Carry,
    Finish,
}

/// What a stage asks for, mathematically.
#[verifier::ext_equal]
pub enum NextView {
    Resolve { url: Seq<char> },
    Relay(AddView),
    StartEngine,
    Claim { url: Seq<char> },
    Queue { job: u64 },
    Fetch(FetchView),
    Carry,
    Finish,
}

impl View for Next {
    type V = NextView;

    open spec fn view(&self) -> NextView {
        match self {
            Next::Resolve { url } => NextView::Resolve { url: url@ },
            Next::Relay(a) => NextView::Relay(add_view(*a)),
            Next::StartEngine => NextView::StartEngine,
            Next::Claim { url } => NextView::Claim { url: url@ },
            Next::Queue { job } => NextView::Queue { job: *job },
            Next::Fetch(r) => NextView::Fetch(fetch_view(*r)),
            Next::Carry => NextView::Carry,
            Next::Finish => NextView::Finish,
        }
    }
}

/// What an event brings about: a message, if there is one, and what is next.
pub struct Turn {
    pub send: Option<Outgoing>,
    pub next: Next,
}

/// What an event brings about, mathematically.
#[verifier::ext_equal]
pub struct TurnView {
    pub send: Option<OutgoingView>,
    pub next: NextView,
}

impl View for Turn {
    type V = TurnView;

    open spec fn view(&self) -> TurnView {
        TurnView {
            send: match self.send {
                Some(m) => Some(m@),
                None => None,
            },
            next: self.next@,
        }
    }
}

/// A download that was taken over.
pub struct Job {
    cmd: DownloadCommand,
    stage: Stage,
}

/// What a job is, mathematically.
#[verifier::ext_equal]
pub struct JobView {
    pub cmd: CommandView,
    pub stage: StageView,
}

impl View for Job {
    type V = JobView;

    closed spec fn view(&self) -> JobView {
        JobView { cmd: self.cmd@, stage: self.stage@ }
    }
}

/// Whether an event is one that a stage waits for.
pub open spec fn expects(stage: StageView, event: JobEvent) -> bool {
    match stage {
        StageView::Resolving => event is Resolved,
        StageView::Relaying => event is Relayed,
        StageView::Starting { .. } => event is Engine,
        StageView::Claiming { .. } => event is Claimed,
        StageView::Queued { .. } => event is Slot,
        StageView::Fetching => event is Progress || event is Ended,
        StageView::Over => false,
    }
}

/// The message about a transfer in progress.
pub open spec fn progress_message(id: u64, p: ProgressSnapshot) -> OutgoingView {
    OutgoingView::Progress {
        id,
        downloaded: p.downloaded,
        total: p.total,
        speed_bits: p.speed_bits,
        eta_seconds: p.eta_secs,
        segments: p.segments,
        active_connections: p.active_connections,
    }
}

/// The message about a transfer that is over.
pub open spec fn end_message(id: u64, end: Result<(DownloadOutcome, String), Error>) -> OutgoingView {
    match end {
        Ok((o, path)) => OutgoingView::Completed {
            id,
            path: path@,
            bytes: o.bytes,
            elapsed_ms: o.elapsed_ms,
            category: o.category.folder_name(),
            segments: o.segments_used,
            resumed: o.resumed,
            used_ranges: o.used_ranges,
        },
        Err(e) => match e@ {
            ErrorView::Cancelled => OutgoingView::Cancelled { id },
            other => OutgoingView::Failed {
                id,
                message: other.message(),
                resumable: may_resume(other),
            },
        },
    }
}

impl JobView {
    /// A command that was taken over, and what comes first.
    pub open spec fn begun(cmd: CommandView) -> (JobView, TurnView) {
        if text::mentions(text::unicode_lower(cmd.url), media::platform_marks()) {
            (
                JobView { cmd, stage: StageView::Resolving },
                TurnView { send: None, next: NextView::Resolve { url: cmd.url } },
            )
        } else {
            (
                JobView { cmd, stage: StageView::Relaying },
                TurnView { send: None, next: NextView::Relay(add_of(cmd)) },
            )
        }
    }

    /// At another stage, with nothing to say.
    pub open spec fn quietly(self, stage: StageView, next: NextView) -> (JobView, TurnView) {
        (JobView { stage, ..self }, TurnView { send: None, next })
    }

    /// Over, with a last word.
    pub open spec fn ending(self, message: OutgoingView) -> (JobView, TurnView) {
        (
            JobView { stage: StageView::Over, ..self },
            TurnView { send: Some(message), next: NextView::Finish },
        )
    }

    /// With the stream that its page resolved to.
    pub open spec fn streaming(self, stream: Option<StreamView>) -> JobView {
        match stream {
            Some(s) => JobView {
                cmd: CommandView { url: s.url, filename: s.filename, ..self.cmd },
                ..self
            },
            None => self,
        }
    }

    /// To be fetched here, if its URL is one of a download.
    pub open spec fn locally(self) -> (JobView, TurnView) {
        match download_link(parsed_link(self.cmd.url), "http and https downloads"@) {
            Ok(url) => self.quietly(StageView::Starting { url }, NextView::StartEngine),
            Err(message) => self.ending(
                OutgoingView::Failed { id: self.cmd.id, message, resumable: false },
            ),
        }
    }

    /// What an event brings about, and whether it enters the job into the
    /// downloads that can be stopped, or takes it out of them.
    pub open spec fn after(self, host: HostView, event: JobEvent) -> (JobView, HostView, TurnView) {
        let id = self.cmd.id;
        match (self.stage, event) {
            (StageView::Resolving, JobEvent::Resolved(stream)) => {
                let job = self.streaming(opt_stream(stream));
                let (job, turn) = job.quietly(
                    StageView::Relaying,
                    NextView::Relay(add_of(job.cmd)),
                );
                (job, host, turn)
            },
            (StageView::Relaying, JobEvent::Relayed(relay)) => match relay {
                Relay::Handed => {
                    let (job, turn) = self.ending(
                        OutgoingView::Accepted { id, url: self.cmd.url },
                    );
                    (job, host, turn)
                },
                _ => {
                    let (job, turn) = self.locally();
                    (job, host, turn)
                },
            },
            (StageView::Starting { url }, JobEvent::Engine(engine)) => match engine {
                Ok(_) => {
                    let (job, turn) = self.quietly(
                        StageView::Claiming { url },
                        NextView::Claim { url: url.text },
                    );
                    (job, host, turn)
                },
                Err(m) => {
                    let (job, turn) = self.ending(OutgoingView::error(Some(id), m@));
                    (job, host, turn)
                },
            },
            (StageView::Claiming { url }, JobEvent::Claimed(claim)) => match claim {
                Claim::Held => (
                    JobView { stage: StageView::Queued { url }, ..self },
                    host.registered(id),
                    TurnView {
                        send: Some(OutgoingView::Accepted { id, url: url.text }),
                        next: NextView::Queue { job: host.next_job },
                    },
                ),
                Claim::Taken => {
                    let (job, turn) = self.ending(
                        OutgoingView::Failed {
                            id,
                            message: "FDM is already downloading this URL."@,
                            resumable: false,
                        },
                    );
                    (job, host, turn)
                },
                Claim::Failed(e) => {
                    let (job, turn) = self.ending(
                        OutgoingView::Failed {
                            id,
                            message: "could not claim this download: "@ + e@.message,
                            resumable: true,
                        },
                    );
                    (job, host, turn)
                },
            },
            (StageView::Queued { url }, JobEvent::Slot { granted, stopped }) => if !granted {
                let (job, turn) = self.ending(
                    OutgoingView::Failed {
                        id,
                        message: "FDM is shutting down."@,
                        resumable: true,
                    },
                );
                (job, host.unregistered(id), turn)
            } else if stopped {
                let (job, turn) = self.ending(OutgoingView::Cancelled { id });
                (job, host.unregistered(id), turn)
            } else {
                let (job, turn) = self.quietly(
                    StageView::Fetching,
                    NextView::Fetch(fetch_of(self.cmd, url)),
                );
                (job, host, turn)
            },
            (StageView::Fetching, JobEvent::Progress(p)) => (
                self,
                host,
                TurnView { send: Some(progress_message(id, p)), next: NextView::Carry },
            ),
            (StageView::Fetching, JobEvent::Ended(end)) => {
                let (job, turn) = self.ending(end_message(id, end));
                (job, host.unregistered(id), turn)
            },
            _ => (self, host, TurnView { send: None, next: NextView::Carry }),
        }
    }
}

fn quiet(next: Next) -> (r: Turn)
    ensures
        r@ == (TurnView { send: None, next: next@ }),
{
    Turn { send: None, next }
}

fn last_word(message: Outgoing) -> (r: Turn)
    ensures
        r@ == (TurnView { send: Some(message@), next: NextView::Finish }),
{
    Turn { send: Some(message), next: Next::Finish }
}

fn last_message(id: u64, end: Result<(DownloadOutcome, String), Error>) -> (r: Outgoing)
    ensures
        r@ == end_message(id, end),
{
    match end {
        Ok((o, path)) => Outgoing::Completed {
            id,
            path,
            bytes: o.bytes,
            elapsed_ms: o.elapsed_ms,
            category: o.category.folder().to_owned(),
            segments: o.segments_used,
            resumed: o.resumed,
            used_ranges: o.used_ranges,
        },
        Err(e) => match e {
            Error::Cancelled => Outgoing::Cancelled { id },
            _ => Outgoing::Failed { id, message: e.message(), resumable: is_resumable(&e) },
        },
    }
}

impl Job {
    /// Take a command over. A video page is resolved first; anything else goes to
    /// the app right away.
    pub fn begin(cmd: DownloadCommand) -> (r: (Job, Turn))
        ensures
            (r.0@, r.1@) == JobView::begun(cmd@),
    {
        if media::is_video_platform(cmd.url.as_str()) {
            let url = cmd.url.clone();
            (Job { cmd, stage: Stage::Resolving }, quiet(Next::Resolve { url }))
        } else {
            let job = Job { cmd, stage: Stage::Relaying };
            let add = job.add_request();
            (job, quiet(Next::Relay(add)))
        }
    }

    fn add_request(&self) -> (r: AddRequest)
        ensures
            add_view(r) == add_of(self@.cmd),
    {
        AddRequest {
            url: self.cmd.url.clone(),
            headers: self.cmd.headers.copied(),
            filename: copy_opt(&self.cmd.filename),
            target_dir: copy_opt(&self.cmd.target_dir),
            audio_url: copy_opt(&self.cmd.audio_url),
        }
    }

    fn request(&self, url: Link) -> (r: DownloadRequest)
        requires
            headers::are_few(self@.cmd.headers),
        ensures
            fetch_view(r) == fetch_of(self@.cmd, url@),
    {
        DownloadRequest {
            url,
            headers: browser_headers(&self.cmd),
            filename: wanted_name_of(&self.cmd.filename),
            target_dir: wanted_dir_of(&self.cmd.target_dir),
        }
    }

    fn go_local(&mut self) -> (r: Turn)
        ensures
            (final(self)@, r@) == old(self)@.locally(),
    {
        match validate_url(self.cmd.url.as_str()) {
            Ok(url) => {
                self.stage = Stage::Starting { url };
                quiet(Next::StartEngine)
            },
            Err(message) => {
                self.stage = Stage::Over;
                last_word(Outgoing::Failed { id: self.cmd.id, message, resumable: false })
            },
        }
    }

    /// Take in what came of what the current stage asked for.
    pub fn step(&mut self, event: JobEvent, host: &mut Host) -> (r: Turn)
        requires
            expects(old(self)@.stage, event),
            headers::are_few(old(self)@.cmd.headers),
            old(host)@.wf(),
            old(host)@.next_job < u64::MAX,
        ensures
            (final(self)@, final(host)@, r@) == old(self)@.after(old(host)@, event),
            final(host)@.wf(),
    {
        let id: u64 = self.cmd.id;
        match event {
            JobEvent::Resolved(stream) => {
                if let Some(s) = stream {
                    self.cmd.url = s.url;
                    self.cmd.filename = s.filename;
                }
                self.stage = Stage::Relaying;
                quiet(Next::Relay(self.add_request()))
            },
            JobEvent::Relayed(relay) => match relay {
                Relay::Handed => {
                    self.stage = Stage::Over;
                    last_word(Outgoing::Accepted { id, url: self.cmd.url.clone() })
                },
                _ => self.go_local(),
            },
            JobEvent::Engine(engine) => match engine {
                Ok(_) => {
                    let url = self.url();
                    let shown = url.text.clone();
                    self.stage = Stage::Claiming { url };
                    quiet(Next::Claim { url: shown })
                },
                Err(m) => {
                    self.stage = Stage::Over;
                    last_word(Outgoing::error(Some(id), m.as_str()))
                },
            },
            JobEvent::Claimed(claim) => match claim {
                Claim::Held => {
                    let url = self.url();
                    let shown = url.text.clone();
                    self.stage = Stage::Queued { url };
                    // Registered before queueing, so that a download waiting for
                    // a slot can still be stopped.
                    let job: u64 = host.register(id);
                    Turn {
                        send: Some(Outgoing::Accepted { id, url: shown }),
                        next: Next::Queue { job },
                    }
                },
                Claim::Taken => {
                    self.stage = Stage::Over;
                    last_word(
                        Outgoing::Failed {
                            id,
                            message: "FDM is already downloading this URL.".to_owned(),
                            resumable: false,
                        },
                    )
                },
                Claim::Failed(e) => {
                    // Going on would risk two writers on one file.
                    self.stage = Stage::Over;
                    last_word(
                        Outgoing::Failed {
                            id,
                            message: joined("could not claim this download: ", e.message.as_str()),
                            resumable: true,
                        },
                    )
                },
            },
            JobEvent::Slot { granted, stopped } => {
                if !granted {
                    self.stage = Stage::Over;
                    host.unregister(id);
                    return last_word(
                        Outgoing::Failed {
                            id,
                            message: "FDM is shutting down.".to_owned(),
                            resumable: true,
                        },
                    );
                }
                if stopped {
                    self.stage = Stage::Over;
                    host.unregister(id);
                    return last_word(Outgoing::Cancelled { id });
                }
                let url = self.url();
                self.stage = Stage::Fetching;
                quiet(Next::Fetch(self.request(url)))
            },
            JobEvent::Progress(p) => Turn {
                send: Some(
                    Outgoing::Progress {
                        id,
                        downloaded: p.downloaded,
                        total: p.total,
                        speed_bits: p.speed_bits,
                        eta_seconds: p.eta_secs,
                        segments: p.segments,
                        active_connections: p.active_connections,
                    },
                ),
                next: Next::Carry,
            },
            JobEvent::Ended(end) => {
                self.stage = Stage::Over;
                host.unregister(id);
                last_word(last_message(id, end))
            },
        }
    }

    /// The URL that is being fetched here.
    fn url(&self) -> (r: Link)
        requires
            self@.stage is Starting || self@.stage is Claiming || self@.stage is Queued,
        ensures
            self@.stage matches StageView::Starting { url } ==> r@ == url,
            self@.stage matches StageView::Claiming { url } ==> r@ == url,
            self@.stage matches StageView::Queued { url } ==> r@ == url,
    {
        match &self.stage {
            Stage::Starting { url } => url.copied(),
            Stage::Claiming { url } => url.copied(),
            Stage::Queued { url } => url.copied(),
            _ => Link {
                text: self.cmd.url.clone(),
                scheme: String::new(),
                host: None,
                segments: None,
            },
        }
    }
}

/// Whether a message ends a download.
pub open spec fn is_last_word(m: OutgoingView) -> bool {
    m is Completed || m is Failed || m is Cancelled || m is Error
}

/// A job is over exactly when it has finished, and it then leaves nothing behind
/// that could be stopped: it was either never registered, or is taken out. Its
/// last message ends the download, or says that the app has it.
pub proof fn law_a_job_ends_once(job: JobView, host: HostView, event: JobEvent)
    requires
        expects(job.stage, event),
    ensures
        ({
            let (after, hosts, turn) = job.after(host, event);
            &&& after.stage is Over <==> turn.next is Finish
            &&& after.stage is Over ==> turn.send is Some && (is_last_word(turn.send->0)
                || job.stage is Relaying && turn.send->0 is Accepted)
            &&& !(after.stage is Over) && turn.send is Some ==> !is_last_word(turn.send->0)
            &&& (job.stage is Queued || job.stage is Fetching) && after.stage is Over ==> hosts
                == host.unregistered(job.cmd.id)
            &&& !(job.stage is Queued || job.stage is Fetching || job.stage is Claiming) ==> hosts
                == host
        }),
{
}

/// Nothing is fetched here without the claim that keeps other processes off the
/// file: a job comes to fetch only through its place in the queue, and to that
/// only by holding the claim.
pub proof fn law_only_a_claimed_download_is_fetched(job: JobView, host: HostView, event: JobEvent)
    requires
        expects(job.stage, event),
    ensures
        ({
            let (after, hosts, turn) = job.after(host, event);
            &&& after.stage is Fetching ==> job.stage is Queued || job.stage is Fetching
            &&& after.stage is Queued ==> job.stage is Claiming && event == JobEvent::Claimed(
                Claim::Held,
            )
            &&& turn.next is Fetch ==> job.stage is Queued
        }),
{
}

/// What may pass by itself can be resumed, and so can what was tried often enough;
/// what will stay as it is cannot.
pub proof fn law_what_may_pass_can_be_resumed(e: ErrorView)
    ensures
        e.is_retryable() ==> may_resume(e),
        e is RetriesExhausted || e is Http || e is Io ==> may_resume(e),
        e is ResourceChanged || e is RangeNotSatisfiable || e is Cancelled || e is Url
            ==> !may_resume(e),
        e matches ErrorView::Status(s) ==> (s < 500 && s != 408 && s != 429 ==> !may_resume(e)),
{
}

/// A message of the right version, or of none, is acted on; one of another version is
/// answered with what to do about it.
pub proof fn law_a_message_is_acted_on(host: HostView, msg: Incoming, r: HostStep, i: int)
    requires
        host.wf(),
        is_decision(host, msg, r),
    ensures
        msg matches Incoming::Download(cmd) ==> (cmd.protocol is None || cmd.protocol == Some(
            PROTOCOL_VERSION,
        ) ==> r == HostStep::Take(cmd)),
        msg matches Incoming::Download(cmd) ==> (cmd.protocol is Some && cmd.protocol != Some(
            PROTOCOL_VERSION,
        ) ==> (r matches HostStep::Send(m) && m@ matches OutgoingView::Error {
            id,
            version_mismatch,
            ..
        } && id == Some(cmd.id) && version_mismatch)),
        msg matches Incoming::Ping { id, protocol } ==> (protocol is None || protocol == Some(
            PROTOCOL_VERSION,
        ) ==> r == HostStep::Describe { id }),
        msg matches Incoming::Ping { id, protocol } ==> (protocol is Some && protocol != Some(
            PROTOCOL_VERSION,
        ) ==> r is Send),
        msg matches Incoming::Cancel { id } ==> (0 <= i < host.running.len() && host.running[i].id
            == id ==> r == (HostStep::Stop { job: host.running[i].job })),
        msg matches Incoming::Cancel { id } ==> ((forall|k: int|
            0 <= k < host.running.len() ==> (#[trigger] host.running[k]).id != id) ==> r is Send),
        msg matches Incoming::Status { id } ==> (r matches HostStep::Send(m)
            && m@ matches OutgoingView::Status { id: to, active } && to == id && active.len()
            == host.running.len() && (0 <= i < host.running.len() ==> active[i]
            == host.running[i].id)),
{
    if let Incoming::Cancel { id } = msg {
        if 0 <= i < host.running.len() && host.running[i].id == id {
            let p = host.place_of(id)->0;
            assert(host.running[p].id == id);
            if p < i {
                assert(host.running[p].id != host.running[i].id);
            } else if i < p {
                assert(host.running[i].id != host.running[p].id);
            }
        }
    }
}

/// The app speaks for itself where it runs; where it does not, this process does.
pub proof fn law_the_app_speaks_for_itself(
    id: Option<u64>,
    version: Seq<char>,
    host_path: Seq<char>,
    w: WelcomeView,
    local: LocalEngine,
)
    ensures
        pong(id, version, host_path, Some(w), local) matches OutgoingView::Pong {
            id: to,
            protocol,
            download_root,
            max_connections,
            ..
        } && to == id && protocol == PROTOCOL_VERSION && download_root == w.download_root
            && max_connections == w.max_connections,
        local matches LocalEngine::Ready { download_root, max_connections } ==> (pong(
            id,
            version,
            host_path,
            None,
            local,
        ) matches OutgoingView::Pong { id: to, download_root: root, max_connections: n, .. } && to
            == id && root == download_root@ && n == max_connections),
        local is Failed ==> pong(id, version, host_path, None, local) is Error,
{
}

/// A download is first of all the app's: what the app takes is reported as accepted
/// and never fetched here, and what it does not take is, whatever kept it from it.
pub proof fn law_the_app_comes_first(job: JobView, host: HostView, relay: Relay, url: LinkView)
    requires
        job.stage is Relaying,
    ensures
        ({
            let (after, hosts, turn) = job.after(host, JobEvent::Relayed(relay));
            &&& hosts == host
            &&& relay is Handed ==> after.stage is Over && turn.next is Finish && turn.send == Some(
                OutgoingView::Accepted { id: job.cmd.id, url: job.cmd.url },
            )
            &&& !(relay is Handed) && parsed_link(job.cmd.url) == Ok::<LinkView, Seq<char>>(url)
                && (url.scheme == "http"@ || url.scheme == "https"@) && url.host is Some
                ==> after.stage == (StageView::Starting { url }) && turn.next is StartEngine
                && turn.send is None && after.cmd == job.cmd
            &&& !(relay is Handed) && parsed_link(job.cmd.url) is Err ==> after.stage is Over && (
            turn.send matches Some(OutgoingView::Failed { id, resumable, .. }) && id == job.cmd.id
                && !resumable)
        }),
        ({
            let (begun, turn) = JobView::begun(job.cmd);
            &&& turn.send is None && begun.cmd == job.cmd
            &&& turn.next matches NextView::Relay(a) ==> begun.stage is Relaying && a.url
                == job.cmd.url && a.headers == job.cmd.headers && a.filename == job.cmd.filename
                && a.target_dir == job.cmd.target_dir && a.audio_url == job.cmd.audio_url
            &&& turn.next is Relay || turn.next is Resolve
            &&& turn.next is Resolve <==> text::mentions(
                text::unicode_lower(job.cmd.url),
                media::platform_marks(),
            )
            &&& turn.next matches NextView::Resolve { url } ==> begun.stage is Resolving && url
                == job.cmd.url
        }),
{
}

/// A page that resolves to a stream goes on as that stream, under the name of it and
/// with everything else it came with; one that does not goes on as it is.
pub proof fn law_a_page_goes_on_as_its_stream(job: JobView, host: HostView, stream: Option<Stream>)
    requires
        job.stage is Resolving,
    ensures
        ({
            let (after, hosts, turn) = job.after(host, JobEvent::Resolved(stream));
            &&& hosts == host && turn.send is None
            &&& after.stage is Relaying
            &&& turn.next matches NextView::Relay(a) && a.url == after.cmd.url && a.headers
                == job.cmd.headers && a.filename == after.cmd.filename && a.target_dir
                == job.cmd.target_dir
            &&& stream is None ==> after.cmd == job.cmd
            &&& stream matches Some(s) ==> after.cmd.url == s@.url && after.cmd.filename
                == s@.filename
            &&& after.cmd.id == job.cmd.id && after.cmd.headers == job.cmd.headers
        }),
{
}

/// A download that nothing stands in the way of is claimed, announced, queued under a
/// number of its own, and fetched as the command said.
pub proof fn law_a_job_goes_its_way(job: JobView, host: HostView, url: LinkView)
    requires
        host.wf(),
        host.next_job < u64::MAX,
    ensures
        job.stage == (StageView::Starting { url }) ==> {
            let (after, hosts, turn) = job.after(host, JobEvent::Engine(Ok(())));
            after.stage == (StageView::Claiming { url }) && turn.next == (NextView::Claim {
                url: url.text,
            }) && turn.send is None && hosts == host && after.cmd == job.cmd
        },
        job.stage == (StageView::Claiming { url }) ==> {
            let (after, hosts, turn) = job.after(host, JobEvent::Claimed(Claim::Held));
            &&& after.stage == (StageView::Queued { url }) && after.cmd == job.cmd
            &&& turn.send == Some(OutgoingView::Accepted { id: job.cmd.id, url: url.text })
            &&& turn.next == (NextView::Queue { job: host.next_job })
            &&& hosts.place_of(job.cmd.id) matches Some(i) && hosts.running[i].job == host.next_job
        },
        job.stage == (StageView::Claiming { url }) ==> {
            let (after, hosts, turn) = job.after(host, JobEvent::Claimed(Claim::Taken));
            &&& after.stage is Over && hosts == host
            &&& turn.send matches Some(OutgoingView::Failed { id, resumable, .. }) && id
                == job.cmd.id && !resumable
        },
        job.stage == (StageView::Queued { url }) ==> {
            let (after, hosts, turn) = job.after(
                host,
                JobEvent::Slot { granted: true, stopped: false },
            );
            &&& after.stage is Fetching && hosts == host && turn.send is None && after.cmd
                == job.cmd
            &&& turn.next matches NextView::Fetch(r) && r.url == url && r.headers
                == headers::kept_headers(job.cmd.headers) && r.filename == wanted_name(
                job.cmd.filename,
            ) && r.target_dir == wanted_dir(job.cmd.target_dir)
        },
        job.stage == (StageView::Queued { url }) ==> {
            let (after, hosts, turn) = job.after(
                host,
                JobEvent::Slot { granted: true, stopped: true },
            );
            after.stage is Over && turn.send == Some(OutgoingView::Cancelled { id: job.cmd.id })
        },
        job.stage == (StageView::Queued { url }) ==> {
            let (after, hosts, turn) = job.after(
                host,
                JobEvent::Slot { granted: false, stopped: false },
            );
            after.stage is Over && (turn.send matches Some(
                OutgoingView::Failed { id, resumable, .. },
            ) && id == job.cmd.id && resumable)
        },
{
    law_a_stop_reaches_one_job(host, job.cmd.id);
}

/// The browser hears what there is to hear of a transfer: each progress as it is made,
/// and at the end how it ended.
pub proof fn law_the_browser_hears_of_a_transfer(
    job: JobView,
    host: HostView,
    p: ProgressSnapshot,
    o: DownloadOutcome,
    path: String,
    err: Error,
)
    requires
        job.stage is Fetching,
    ensures
        ({
            let (after, hosts, turn) = job.after(host, JobEvent::Progress(p));
            &&& after == job && hosts == host && turn.next is Carry
            &&& turn.send matches Some(
                OutgoingView::Progress {
                    id,
                    downloaded,
                    total,
                    speed_bits,
                    eta_seconds,
                    segments,
                    active_connections,
                },
            ) && id == job.cmd.id && downloaded == p.downloaded && total == p.total && speed_bits
                == p.speed_bits && eta_seconds == p.eta_secs && segments == p.segments
                && active_connections == p.active_connections
        }),
        ({
            let (after, hosts, turn) = job.after(host, JobEvent::Ended(Ok((o, path))));
            &&& after.stage is Over
            &&& turn.send matches Some(
                OutgoingView::Completed { id, path: at, bytes, elapsed_ms, resumed, .. },
            ) && id == job.cmd.id && at == path@ && bytes == o.bytes && elapsed_ms == o.elapsed_ms
                && resumed == o.resumed
        }),
        ({
            let (after, hosts, turn) = job.after(host, JobEvent::Ended(Err(err)));
            &&& after.stage is Over
            &&& err@ is Cancelled ==> turn.send == Some(OutgoingView::Cancelled { id: job.cmd.id })
            &&& !(err@ is Cancelled) ==> (turn.send matches Some(
                OutgoingView::Failed { id, message, resumable },
            ) && id == job.cmd.id && message == err@.message() && resumable == may_resume(err@))
        }),
{
}

/// An app that does not run is started once and then looked for; one that cannot be
/// reached for another reason is given up at once, with that reason.
pub proof fn law_an_app_that_does_not_run_is_started(e: ClientErrorView, r: Unreached)
    requires
        is_unreached(e, None, r),
    ensures
        e is NotRunning <==> r is Launch,
        !(e is NotRunning) ==> (r matches Unreached::GiveUp(Relay::Failed(m)) && m@ == e.message()),
{
}

/// What the app has accepted is handed over, and what it refuses is not.
pub proof fn law_only_what_is_accepted_is_handed_over(answer: Result<u64, ClientError>, r: Relay)
    requires
        is_relay(answer, r),
    ensures
        answer is Ok <==> r is Handed,
        answer matches Err(e) ==> (r matches Relay::Failed(m) && m@ == e@.message()),
{
}

/// Taking a download over, and letting it go, leaves every other one stoppable as it
/// was.
pub proof fn law_other_jobs_stay_stoppable(host: HostView, id: u64, i: int)
    requires
        host.wf(),
        host.next_job < u64::MAX,
        0 <= i < host.running.len(),
        host.running[i].id != id,
    ensures
        host.registered(id).running.contains(host.running[i]),
        host.unregistered(id).running.contains(host.running[i]),
        host.registered(id).next_job == host.next_job + 1,
        host.unregistered(id).next_job == host.next_job,
{
    lemma_others_keeps(host.running, id, i);
    let kept = others(host.running, id);
    let k = choose|k: int| 0 <= k < kept.len() && kept[k] == host.running[i];
    assert(host.registered(id).running[k] == kept[k]);
}

proof fn lemma_others_keeps(running: Seq<Running>, id: u64, i: int)
    requires
        0 <= i < running.len(),
        running[i].id != id,
    ensures
        others(running, id).contains(running[i]),
    decreases running.len(),
{
    let front = running.drop_last();
    let kept = others(running, id);
    if i < front.len() {
        lemma_others_keeps(front, id, i);
        let k = choose|k: int| 0 <= k < others(front, id).len() && others(front, id)[k] == front[i];
        assert(kept[k] == front[i]);
    } else {
        assert(kept[kept.len() - 1] == running[i]);
    }
}

} // verus!
