//! The server side of one connection: the handshake, the dispatch table, and
//! what is pushed to a client that subscribed.

use vstd::prelude::*;

use crate::error::{joined, IoFault, IoKind};
use crate::frame;
use crate::headers;
use crate::link;
use crate::link::{download_link, parsed_link, Link, LinkView};
use crate::manager;
use crate::manager::{
    cleanups_view, events_view, Attempt, AttemptView, Cleanup, CleanupView, Manager, ManagerView,
    Resumed,
};
use crate::model::{
    rows, DownloadEntry, DownloadId, EntryView, Event, EventView, NewDownload, Status,
};
use crate::naming::opt_text;
use crate::state::copy_opt;
use crate::text;
use crate::text::Fringe;
use crate::wire;
use crate::wire::{
    mismatch_text, pushed, AddRequest, Call, ErrorKind, EventMessage, EventMessageView, Reply,
    ReplyView, Request, Welcome, WelcomeView, PROTOCOL_VERSION,
};

verus! {

// -------------------------------------------------------------- conversation
/// What came off the connection.
pub enum Received {
    Call(Call),
    /// The client hung up.
    Closed,
    /// A well-formed frame that holds no request, and why.
    Unreadable(String),
    /// The stream itself failed.
    Fault(IoFault),
}

/// What to do next on a connection.
pub enum SessionStep {
    /// Stop. An error means the stream itself misbehaved.
    End(Result<(), IoFault>),
    /// Send this reply; stop after it if it is the last.
    Answer { seq: u64, reply: Reply, last: bool },
    /// Ask the list, then send its answer.
    Ask { seq: u64, request: Request },
}

/// One connection. Nothing is answered before the versions agree.
pub struct Session {
    greeted: bool,
}

impl View for Session {
    type V = bool;

    /// Whether the versions have agreed.
    closed spec fn view(&self) -> bool {
        self.greeted
    }
}

/// What a connection does with what it received.
pub open spec fn is_session_step(
    greeted: bool,
    received: Received,
    server: WelcomeView,
    after: bool,
    step: SessionStep,
) -> bool {
    match received {
        Received::Closed => after == greeted && step == SessionStep::End(Ok(())),
        Received::Unreadable(m) => {
            // The framing is still in step, so one bad request does not cost the
            // client its connection. There is no number to answer with.
            &&& after == greeted
            &&& step matches SessionStep::Answer { seq, reply, last } && seq == 0 && !last
                && reply@ == (ReplyView::Error {
                kind: ErrorKind::Invalid,
                message: "unreadable request: "@ + m@,
            })
        },
        Received::Fault(e) => {
            &&& after == greeted
            &&& if frame::is_disconnect_fault(e@) {
                step == SessionStep::End(Ok(()))
            } else {
                step matches SessionStep::End(Err(f)) && f@ == e@
            }
        },
        Received::Call(call) => if greeted {
            after && step == (SessionStep::Ask { seq: call.seq, request: call.request })
        } else {
            match call.request {
                Request::Hello { protocol } => if protocol == PROTOCOL_VERSION {
                    &&& after
                    &&& step matches SessionStep::Answer { seq, reply, last } && seq == call.seq
                        && !last && reply@ == (ReplyView::Welcome {
                        protocol: PROTOCOL_VERSION,
                        server,
                    })
                } else {
                    &&& !after
                    &&& step matches SessionStep::Answer { seq, reply, last } && seq == call.seq
                        && last && reply@ == (ReplyView::Error {
                        kind: ErrorKind::VersionMismatch,
                        message: mismatch_text(protocol),
                    })
                },
                _ => {
                    &&& !after
                    &&& step matches SessionStep::Answer { seq, reply, last } && seq == call.seq
                        && last && reply@ == (ReplyView::Error {
                        kind: ErrorKind::NotReady,
                        message: "send hello before anything else on this connection"@,
                    })
                },
            }
        },
    }
}

impl Session {
    pub fn new() -> (r: Session)
        ensures
            !r@,
    {
        Session { greeted: false }
    }

    /// Handshake, then requests until the client goes away.
    pub fn converse(&mut self, received: Received, server: &Welcome) -> (r: SessionStep)
        ensures
            is_session_step(old(self)@, received, server@, final(self)@, r),
    {
        match received {
            Received::Closed => SessionStep::End(Ok(())),
            Received::Unreadable(m) => SessionStep::Answer {
                seq: 0,
                reply: Reply::Error {
                    kind: ErrorKind::Invalid,
                    message: joined("unreadable request: ", m.as_str()),
                },
                last: false,
            },
            Received::Fault(e) => if frame::is_disconnect(&e) {
                SessionStep::End(Ok(()))
            } else {
                SessionStep::End(Err(e))
            },
            Received::Call(call) => {
                let seq: u64 = call.seq;
                if self.greeted {
                    return SessionStep::Ask { seq, request: call.request };
                }
                match call.request {
                    Request::Hello { protocol } => if protocol == PROTOCOL_VERSION {
                        self.greeted = true;
                        SessionStep::Answer {
                            seq,
                            reply: Reply::Welcome {
                                protocol: PROTOCOL_VERSION,
                                server: server.copied(),
                            },
                            last: false,
                        }
                    } else {
                        SessionStep::Answer {
                            seq,
                            reply: Reply::version_mismatch(protocol),
                            last: true,
                        }
                    },
                    _ => SessionStep::Answer {
                        seq,
                        reply: Reply::error(
                            ErrorKind::NotReady,
                            "send hello before anything else on this connection",
                        ),
                        last: true,
                    },
                }
            },
        }
    }
}

/// Nothing reaches the list before the versions agree, and a connection whose
/// first request is anything but a matching greeting is over with the answer to
/// it.
pub proof fn law_nothing_is_asked_before_the_greeting(
    received: Received,
    server: WelcomeView,
    after: bool,
    step: SessionStep,
)
    requires
        is_session_step(false, received, server, after, step),
    ensures
        !(step is Ask),
        after ==> (received matches Received::Call(call) && call.request == (Request::Hello {
            protocol: PROTOCOL_VERSION,
        })),
        received is Call && !after ==> (step matches SessionStep::Answer { last, .. } && last),
{
}

// --------------------------------------------------------------------- adding
/// The name a caller asked for; a blank one is the same as none.
pub open spec fn wanted_name(name: Option<Seq<char>>) -> Option<Seq<char>> {
    match name {
        Some(n) => if text::trimmed(n, Fringe::Space).len() > 0 {
            Some(text::trimmed(n, Fringe::Space))
        } else {
            None
        },
        None => None,
    }
}

/// The folder a caller asked for; an empty one is the same as none.
pub open spec fn wanted_dir(dir: Option<Seq<char>>) -> Option<Seq<char>> {
    match dir {
        Some(d) => if d.len() > 0 {
            Some(d)
        } else {
            None
        },
        None => None,
    }
}

pub fn wanted_name_of(name: &Option<String>) -> (r: Option<String>)
    ensures
        opt_text(r) == wanted_name(opt_text(*name)),
{
    match name {
        Some(n) => {
            let chars = text::chars_of(n.as_str());
            let trimmed = text::trim(chars.as_slice(), Fringe::Space);
            if trimmed.len() > 0 {
                Some(text::text_of(trimmed))
            } else {
                None
            }
        },
        None => None,
    }
}

pub fn wanted_dir_of(dir: &Option<String>) -> (r: Option<String>)
    ensures
        opt_text(r) == wanted_dir(opt_text(*dir)),
{
    match dir {
        Some(d) => if d.as_str().is_empty() {
            None
        } else {
            Some(d.clone())
        },
        None => None,
    }
}

/// What a new download is, mathematically.
#[verifier::ext_equal]
pub struct NewView {
    pub url: LinkView,
    pub headers: Map<Seq<char>, Seq<Seq<u8>>>,
    pub filename: Option<Seq<char>>,
    pub target_dir: Option<Seq<char>>,
    pub audio_url: Option<Seq<char>>,
}

/// What checking a request gave.
pub open spec fn new_result(r: Result<NewDownload, String>) -> Result<NewView, Seq<char>> {
    match r {
        Ok(n) => Ok(
            NewView {
                url: n.url@,
                headers: headers::entries(n.headers),
                filename: opt_text(n.filename),
                target_dir: opt_text(n.target_dir),
                audio_url: opt_text(n.audio_url),
            },
        ),
        Err(e) => Err(e@),
    }
}

/// What a request to add a download asks for, or why it is refused. `parsed` is what
/// its URL parses to.
pub open spec fn asked(add: AddRequest, parsed: Result<LinkView, Seq<char>>) -> Result<
    NewView,
    Seq<char>,
> {
    match download_link(parsed, "http and https"@) {
        Err(m) => Err(m),
        Ok(url) => Ok(
            NewView {
                url,
                headers: headers::kept_headers(add.headers@),
                filename: wanted_name(opt_text(add.filename)),
                target_dir: wanted_dir(opt_text(add.target_dir)),
                audio_url: opt_text(add.audio_url),
            },
        ),
    }
}

/// Turn a checked request into what the list takes, given what its URL parses
/// to.
pub fn new_download_parsed(add: &AddRequest, parsed: Result<Link, String>) -> (r: Result<
    NewDownload,
    String,
>)
    requires
        headers::are_few(add.headers@),
    ensures
        new_result(r) == asked(*add, link::link_result(parsed)),
{
    match link::check_download(parsed, "http and https") {
        Err(m) => Err(m),
        Ok(url) => Ok(
            NewDownload {
                url,
                headers: headers::sanitize(add.headers.pairs()),
                filename: wanted_name_of(&add.filename),
                target_dir: wanted_dir_of(&add.target_dir),
                audio_url: copy_opt(&add.audio_url),
            },
        ),
    }
}

/// Validate a request to add a download and turn it into what the list takes.
///
/// This is the path a *different process* can reach, so it cannot assume
/// anything about what already validated the request.
pub fn new_download(add: &AddRequest) -> (r: Result<NewDownload, String>)
    requires
        headers::are_few(add.headers@),
    ensures
        new_result(r) == asked(*add, parsed_link(add.url@)),
{
    let parsed = Link::parse(add.url.as_str());
    new_download_parsed(add, parsed)
}

// ------------------------------------------------------------------- dispatch
/// What answering a request involves.
pub struct Dispatched {
    pub reply: Reply,
    /// Attempts to run.
    pub attempts: Vec<Attempt>,
    /// Events to send.
    pub events: Vec<Event>,
    /// Files to clean up, each with its own event.
    pub cleanups: Vec<Cleanup>,
    /// Whether the list has to be saved.
    pub save: bool,
    /// Whether this connection now receives events, in place of any earlier
    /// subscription of its own. To be taken before the reply's snapshot is sent.
    pub subscribe: bool,
}

/// What answering a request involves, mathematically.
#[verifier::ext_equal]
pub struct DispatchedView {
    pub reply: ReplyView,
    pub attempts: Seq<AttemptView>,
    pub events: Seq<EventView>,
    pub cleanups: Seq<CleanupView>,
    pub save: bool,
    pub subscribe: bool,
}

/// What a list of attempts is.
pub open spec fn attempts_view(v: Seq<Attempt>) -> Seq<AttemptView> {
    v.map_values(|a: Attempt| a@)
}

impl View for Dispatched {
    type V = DispatchedView;

    open spec fn view(&self) -> DispatchedView {
        DispatchedView {
            reply: self.reply@,
            attempts: attempts_view(self.attempts@),
            events: events_view(self.events@),
            cleanups: cleanups_view(self.cleanups@),
            save: self.save,
            subscribe: self.subscribe,
        }
    }
}

impl DispatchedView {
    /// An answer with nothing to be done.
    pub open spec fn just(reply: ReplyView) -> DispatchedView {
        DispatchedView {
            reply,
            attempts: Seq::empty(),
            events: Seq::empty(),
            cleanups: Seq::empty(),
            save: false,
            subscribe: false,
        }
    }

    /// The answer to a refused request.
    pub open spec fn refused(e: manager::ManagerErrorView) -> DispatchedView {
        DispatchedView::just(ReplyView::Error { kind: wire::error_kind(e), message: e.message() })
    }
}

/// What the requests answered by changing one row come to.
pub open spec fn row_request(
    m: ManagerView,
    request: Request,
    now: u64,
    on_disk: Seq<u64>,
) -> (ManagerView, DispatchedView) {
    match request {
        Request::Pause { id } => match m.pause_fault(id) {
            Some(e) => (m, DispatchedView::refused(e)),
            None => {
                let after = m.paused(id, on_disk.contains(id));
                (
                    after,
                    DispatchedView {
                        events: seq![EventView::Changed(after.entries[id])],
                        save: true,
                        ..DispatchedView::just(ReplyView::Done)
                    },
                )
            },
        },
        Request::Resume { id } => {
            let parsed = parsed_link(m.entries[id].url);
            match m.resume_fault(id, parsed) {
                Some(e) => (m, DispatchedView::refused(e)),
                None => {
                    let after = m.resumed(id);
                    (
                        after,
                        DispatchedView {
                            attempts: seq![m.next_attempt(id, parsed->Ok_0)],
                            events: seq![EventView::Changed(after.entries[id])],
                            save: true,
                            ..DispatchedView::just(ReplyView::Done)
                        },
                    )
                },
            }
        },
        Request::Cancel { id } => match m.absent_fault(id) {
            Some(e) => (m, DispatchedView::refused(e)),
            None => {
                let after = m.cancelled(id, now);
                (
                    after,
                    DispatchedView {
                        cleanups: seq![
                            CleanupView {
                                discard: m.discarded_by_cancel(id),
                                ..CleanupView::changed(after.entries[id])
                            },
                        ],
                        save: true,
                        ..DispatchedView::just(ReplyView::Done)
                    },
                )
            },
        },
        Request::Remove { id, delete_file } => match m.absent_fault(id) {
            Some(e) => (m, DispatchedView::refused(e)),
            None => (
                m.removed(id, delete_file),
                DispatchedView {
                    cleanups: seq![m.cleaned_by_remove(id, delete_file)],
                    save: !m.entries[id].status.active(),
                    ..DispatchedView::just(ReplyView::Done)
                },
            ),
        },
        _ => (m, DispatchedView::just(ReplyView::Done)),
    }
}

/// What the requests about the whole list come to.
pub open spec fn list_request(
    m: ManagerView,
    request: Request,
    on_disk: Seq<u64>,
    server: WelcomeView,
) -> (ManagerView, DispatchedView) {
    match request {
        Request::Hello { protocol } => if protocol == PROTOCOL_VERSION {
            (
                m,
                DispatchedView::just(
                    ReplyView::Welcome { protocol: PROTOCOL_VERSION, server },
                ),
            )
        } else {
            (
                m,
                DispatchedView::just(
                    ReplyView::Error {
                        kind: ErrorKind::VersionMismatch,
                        message: mismatch_text(protocol),
                    },
                ),
            )
        },
        Request::PauseAll => {
            let (after, events) = m.pausing(manager::active_ids(m.listed()), on_disk);
            (
                after,
                DispatchedView {
                    events,
                    save: events.len() > 0,
                    ..DispatchedView::just(ReplyView::Count { n: events.len() as int })
                },
            )
        },
        Request::ResumeAll => {
            let (after, out) = m.resuming(manager::restartable_ids(m.listed()));
            (
                after,
                DispatchedView {
                    attempts: out.map_values(|p: (AttemptView, EventView)| p.0),
                    events: out.map_values(|p: (AttemptView, EventView)| p.1),
                    save: out.len() > 0,
                    ..DispatchedView::just(ReplyView::Count { n: out.len() as int })
                },
            )
        },
        Request::ClearFinished => {
            let (after, out) = m.clearing(manager::finished_ids(m.listed()));
            (
                after,
                DispatchedView {
                    cleanups: out,
                    save: out.len() > 0,
                    ..DispatchedView::just(ReplyView::Count { n: out.len() as int })
                },
            )
        },
        Request::List => (m, DispatchedView::just(ReplyView::List { downloads: m.listed() })),
        Request::Get { id } => (
            m,
            DispatchedView::just(
                ReplyView::Entry {
                    download: if m.entries.dom().contains(id) {
                        Some(m.entries[id])
                    } else {
                        None
                    },
                },
            ),
        ),
        Request::Subscribe => (
            m,
            DispatchedView {
                subscribe: true,
                ..DispatchedView::just(ReplyView::List { downloads: m.listed() })
            },
        ),
        _ => (m, DispatchedView::just(ReplyView::Done)),
    }
}

/// What a request to add a download comes to.
pub open spec fn add_request(m: ManagerView, add: AddRequest, now: u64) -> (
    ManagerView,
    DispatchedView,
) {
    match asked(add, parsed_link(add.url@)) {
        Err(message) => (
            m,
            DispatchedView::just(ReplyView::Error { kind: ErrorKind::Invalid, message }),
        ),
        Ok(new) => {
            let id = m.next_id;
            let after = m.added(new.url, new.headers, new.filename, new.target_dir, now);
            (
                after,
                DispatchedView {
                    attempts: seq![m.first_attempt(new.url, new.filename, new.target_dir)],
                    events: seq![EventView::Added(after.entries[id])],
                    save: true,
                    ..DispatchedView::just(ReplyView::Added { id })
                },
            )
        },
    }
}

/// What a request comes to.
pub open spec fn answered(
    m: ManagerView,
    request: Request,
    now: u64,
    on_disk: Seq<u64>,
    server: WelcomeView,
) -> (ManagerView, DispatchedView) {
    match request {
        Request::Add(add) => add_request(m, add, now),
        Request::Pause { .. } | Request::Resume { .. } | Request::Cancel { .. }
        | Request::Remove { .. } => row_request(m, request, now, on_disk),
        _ => list_request(m, request, on_disk, server),
    }
}

fn just(reply: Reply) -> (r: Dispatched)
    ensures
        r@ == DispatchedView::just(reply@),
{
    let r = Dispatched {
        reply,
        attempts: Vec::new(),
        events: Vec::new(),
        cleanups: Vec::new(),
        save: false,
        subscribe: false,
    };
    assert(r@ =~= DispatchedView::just(reply@));
    r
}

fn dispatch_row(
    request: Request,
    manager: &mut Manager,
    now: u64,
    on_disk: &Vec<DownloadId>,
) -> (r: Dispatched)
    requires
        old(manager)@.wf(),
        old(manager)@.next_gen < u64::MAX,
        request is Pause || request is Resume || request is Cancel || request is Remove,
    ensures
        final(manager)@.wf(),
        (final(manager)@, r@) == row_request(old(manager)@, request, now, on_disk@),
{
    match request {
        Request::Pause { id } => match manager.pause(id, manager::has_id(on_disk, id)) {
            Ok(ev) => {
                let mut d = just(Reply::Done);
                d.events.push(ev);
                d.save = true;
                assert(d@.events =~= seq![ev@]);
                d
            },
            Err(e) => just(Reply::refusal(&e)),
        },
        Request::Resume { id } => match manager.resume(id) {
            Ok(out) => {
                let mut d = just(Reply::Done);
                let ghost attempt = out.attempt@;
                let ghost event = out.event@;
                d.attempts.push(out.attempt);
                d.events.push(out.event);
                d.save = true;
                assert(d@.attempts =~= seq![attempt]);
                assert(d@.events =~= seq![event]);
                d
            },
            Err(e) => just(Reply::refusal(&e)),
        },
        Request::Cancel { id } => match manager.cancel(id, now) {
            Ok(out) => {
                let mut d = just(Reply::Done);
                let c = Cleanup { discard: out.discard, delete: None, event: Some(out.event) };
                d.cleanups.push(c);
                d.save = true;
                assert(d@.cleanups =~= seq![c@]);
                d
            },
            Err(e) => just(Reply::refusal(&e)),
        },
        Request::Remove { id, delete_file } => match manager.remove(id, delete_file) {
            Ok(c) => {
                let mut d = just(Reply::Done);
                d.save = c.event.is_some();
                d.cleanups.push(c);
                assert(d@.cleanups =~= seq![c@]);
                d
            },
            Err(e) => just(Reply::refusal(&e)),
        },
        _ => just(Reply::Done),
    }
}

/// Answer a request. `now` is the time, `on_disk` lists the rows whose control
/// file is there, and `server` describes this process.
pub fn dispatch(
    request: Request,
    manager: &mut Manager,
    now: u64,
    on_disk: &Vec<DownloadId>,
    server: &Welcome,
) -> (r: Dispatched)
    requires
        old(manager)@.wf(),
        old(manager)@.next_id < u64::MAX,
        old(manager)@.next_gen + old(manager)@.order.len() < u64::MAX,
        request matches Request::Add(add) ==> headers::are_few(add.headers@),
    ensures
        final(manager)@.wf(),
        (final(manager)@, r@) == answered(old(manager)@, request, now, on_disk@, server@),
{
    match request {
        // A second hello is harmless and answering it is friendlier than
        // dropping the connection over it.
        Request::Hello { protocol } => if protocol == PROTOCOL_VERSION {
            just(Reply::Welcome { protocol: PROTOCOL_VERSION, server: server.copied() })
        } else {
            just(Reply::version_mismatch(protocol))
        },
        Request::Add(add) => match new_download(&add) {
            Ok(new) => {
                let out = manager.add(new, now);
                let mut d = just(Reply::Added { id: out.id });
                let ghost attempt = out.attempt@;
                let ghost event = out.event@;
                d.attempts.push(out.attempt);
                d.events.push(out.event);
                d.save = true;
                assert(d@.attempts =~= seq![attempt]);
                assert(d@.events =~= seq![event]);
                d
            },
            Err(message) => just(Reply::Error { kind: ErrorKind::Invalid, message }),
        },
        Request::Pause { .. } | Request::Resume { .. } | Request::Cancel { .. }
        | Request::Remove { .. } => dispatch_row(request, manager, now, on_disk),
        Request::PauseAll => {
            let events = manager.pause_all(on_disk);
            let n: usize = events.len();
            let mut d = just(Reply::Count { n });
            d.save = n > 0;
            d.events = events;
            d
        },
        Request::ResumeAll => {
            let out: Vec<Resumed> = manager.resume_all();
            let n: usize = out.len();
            let mut d = just(Reply::Count { n });
            d.save = n > 0;
            let ghost all = manager::resumed_view(out@);
            let mut rest = out;
            let mut attempts: Vec<Attempt> = Vec::new();
            let mut events: Vec<Event> = Vec::new();
            let mut i: usize = 0;
            while i < n
                invariant
                    i <= n,
                    n == all.len(),
                    rest.len() == n - i,
                    manager::resumed_view(rest@) == all.skip(i as int),
                    attempts.len() == i,
                    events.len() == i,
                    forall|k: int| 0 <= k < i ==> (#[trigger] attempts[k])@ == all[k].0,
                    forall|k: int| 0 <= k < i ==> (#[trigger] events[k])@ == all[k].1,
                decreases n - i,
            {
                let ghost before = rest@;
                let one = rest.remove(0);
                proof {
                    assert(manager::resumed_view(before)[0] == all[i as int]);
                    assert forall|k: int| 0 <= k < rest.len() implies #[trigger] manager::resumed_view(
                        rest@,
                    )[k] == all.skip(i + 1)[k] by {
                        assert(rest[k] == before[k + 1]);
                        assert(manager::resumed_view(before)[k + 1] == all.skip(i as int)[k + 1]);
                    }
                    assert(manager::resumed_view(rest@) =~= all.skip(i + 1));
                }
                attempts.push(one.attempt);
                events.push(one.event);
                i = i + 1;
            }
            d.attempts = attempts;
            d.events = events;
            assert(d@.attempts =~= all.map_values(|p: (AttemptView, EventView)| p.0));
            assert(d@.events =~= all.map_values(|p: (AttemptView, EventView)| p.1));
            d
        },
        Request::ClearFinished => {
            let out = manager.clear_finished();
            let n: usize = out.len();
            let mut d = just(Reply::Count { n });
            d.save = n > 0;
            d.cleanups = out;
            d
        },
        Request::List => just(Reply::List { downloads: manager.list() }),
        Request::Get { id } => just(Reply::Entry { download: manager.get(id) }),
        Request::Subscribe => {
            let mut d = just(Reply::List { downloads: manager.list() });
            d.subscribe = true;
            d
        },
    }
}

// ------------------------------------------------------------------- pushing
/// What a subscriber's feed of the list's events hands over.
pub enum Feed {
    Event(Event),
    /// The client was too slow, and events it had not read were lost.
    Lagged,
    /// The list is gone: the process is shutting down.
    Closed,
}

/// What an optional message is.
pub open spec fn opt_message(v: Option<EventMessage>) -> Option<EventMessageView> {
    match v {
        Some(m) => Some(m@),
        None => None,
    }
}

/// What is pushed to a subscriber, if it is kept.
pub open spec fn forwarded(feed: Feed, list: Seq<EntryView>) -> Option<EventMessageView> {
    match feed {
        Feed::Event(e) => Some(pushed(e@)),
        Feed::Lagged => Some(EventMessageView::Resync { downloads: list }),
        Feed::Closed => None,
    }
}

/// What to push to a subscriber, if it is to be kept. `list` is the list as it
/// is now.
///
/// A client that missed events gets the whole list: a lost removal is one that
/// no later event would ever correct.
pub fn forward(feed: Feed, list: Vec<DownloadEntry>) -> (r: Option<EventMessage>)
    ensures
        opt_message(r) == forwarded(feed, rows(list@)),
{
    match feed {
        Feed::Event(e) => Some(EventMessage::of(e)),
        Feed::Lagged => Some(EventMessage::Resync { downloads: list }),
        Feed::Closed => None,
    }
}

/// Only a web URL with a host ever becomes a row, and none of its headers is one
/// the engine reserves for itself.
pub proof fn law_only_checked_downloads_are_added(
    m: ManagerView,
    add: AddRequest,
    now: u64,
    name: Seq<char>,
)
    requires
        m.wf(),
        m.next_id < u64::MAX,
    ensures
        ({
            let (after, d) = add_request(m, add, now);
            &&& d.reply is Added <==> download_link(parsed_link(add.url@), "http and https"@) is Ok
            &&& !(d.reply is Added) ==> after == m
            &&& d.reply is Added && after.runtime[m.next_id].headers.dom().contains(name)
                ==> !headers::denylist().contains(name)
        }),
{
    if headers::kept_headers(add.headers@).dom().contains(name) {
        headers::law_reserved_headers_never_pass(add.headers@, name);
    }
}

/// Once greeted, a connection passes every call on under its number, and stays; a
/// frame it cannot read costs it nothing. A matching greeting is answered with what
/// the server is.
pub proof fn law_a_greeted_connection_stays(
    greeted: bool,
    received: Received,
    server: WelcomeView,
    after: bool,
    step: SessionStep,
)
    requires
        is_session_step(greeted, received, server, after, step),
    ensures
        greeted ==> after,
        greeted ==> (received matches Received::Call(call) ==> step == (SessionStep::Ask {
            seq: call.seq,
            request: call.request,
        })),
        received is Unreadable ==> (step matches SessionStep::Answer { last, reply, .. } && !last
            && reply@ is Error) && after == greeted,
        received is Closed ==> step == SessionStep::End(Ok(())),
        received is Fault ==> step is End,
        !greeted ==> (received matches Received::Call(call) ==> (call.request == (Request::Hello {
            protocol: PROTOCOL_VERSION,
        }) ==> after && (step matches SessionStep::Answer { seq, reply, last } && seq == call.seq
            && !last && reply@ == (ReplyView::Welcome { protocol: PROTOCOL_VERSION, server })))),
        received matches Received::Call(call) ==> (step matches SessionStep::Answer { seq, .. }
            ==> seq == call.seq),
{
}

/// What the list takes is what was asked for: the URL, its name without the blanks
/// around it, its folder, its sound track, and every header that may be sent.
pub proof fn law_an_add_asks_for_what_it_says(
    add: AddRequest,
    url: LinkView,
    front: Seq<char>,
    name: Seq<char>,
    back: Seq<char>,
)
    requires
        url.scheme == "http"@ || url.scheme == "https"@,
        url.host is Some,
        name.len() > 0,
        !text::is_space(name[0]) && !text::is_space(name.last()),
        forall|i: int| 0 <= i < front.len() ==> text::is_space(#[trigger] front[i]),
        forall|i: int| 0 <= i < back.len() ==> text::is_space(#[trigger] back[i]),
    ensures
        asked(add, Ok(url)) matches Ok(new) && {
            &&& new.url == url
            &&& new.headers == headers::kept_headers(add.headers@)
            &&& opt_text(add.filename) == Some(front + name + back) ==> new.filename == Some(name)
            &&& opt_text(add.filename) == Some(front) ==> new.filename is None
            &&& add.filename is None ==> new.filename is None
            &&& add.target_dir matches Some(d) ==> (d@.len() > 0 ==> new.target_dir == Some(d@)) && (
            d@.len() == 0 ==> new.target_dir is None)
            &&& add.target_dir is None ==> new.target_dir is None
            &&& new.audio_url == opt_text(add.audio_url)
        },
{
    text::law_what_is_around_is_taken_off(front, name, back, Fringe::Space);
    let none = Seq::<char>::empty();
    text::law_what_is_around_is_taken_off(front, none, none, Fringe::Space);
    assert(front + none + none =~= front);
}

/// A download that is added is run, announced, saved, and answered with its id.
pub proof fn law_an_added_download_is_run(m: ManagerView, add: AddRequest, now: u64)
    requires
        m.next_id < u64::MAX,
        m.next_gen < u64::MAX,
    ensures
        ({
            let (after, d) = add_request(m, add, now);
            let parsed = parsed_link(add.url@);
            &&& asked(add, parsed) matches Ok(new) ==> {
                &&& d.reply == (ReplyView::Added { id: m.next_id })
                &&& d.attempts.len() == 1 && d.attempts[0].id == m.next_id && d.attempts[0].url
                    == new.url
                &&& after.begun(d.attempts[0]).1 == manager::BeginView::Run(
                    manager::RequestView {
                        url: new.url,
                        headers: new.headers,
                        filename: new.filename,
                        target_dir: new.target_dir,
                    },
                )
                &&& d.events == seq![EventView::Added(after.entries[m.next_id])]
                &&& d.save && d.cleanups.len() == 0
            }
            &&& asked(add, parsed) matches Err(why) ==> after == m && d.attempts.len() == 0
                && d.events.len() == 0 && d.cleanups.len() == 0 && !d.save && d.reply == (
            ReplyView::Error { kind: ErrorKind::Invalid, message: why })
        }),
{
    if asked(add, parsed_link(add.url@)) is Ok {
        let new = asked(add, parsed_link(add.url@))->Ok_0;
        manager::law_what_was_added_is_fetched(
            m,
            new.url,
            new.headers,
            new.filename,
            new.target_dir,
            now,
        );
    }
}

/// Each request about one row does what it is called after, tells the watchers, and
/// has the list saved.
pub proof fn law_a_request_does_what_it_says(
    m: ManagerView,
    id: u64,
    delete_file: bool,
    now: u64,
    on_disk: Seq<u64>,
    server: WelcomeView,
)
    requires
        m.wf(),
        m.next_gen < u64::MAX,
        m.entries.dom().contains(id),
    ensures
        m.entries[id].status.active() ==> {
            let (after, d) = answered(m, Request::Pause { id }, now, on_disk, server);
            &&& after.entries[id].status == Status::Paused
            &&& after.must_stop(id, m.runtime[id].generation)
            &&& d.reply is Done && d.save && d.attempts.len() == 0 && d.cleanups.len() == 0
            &&& d.events == seq![EventView::Changed(after.entries[id])]
        },
        !m.entries[id].status.active() && m.entries[id].status != Status::Completed
            && parsed_link(m.entries[id].url) is Ok ==> {
            let (after, d) = answered(m, Request::Resume { id }, now, on_disk, server);
            &&& after.entries[id].status == Status::Queued
            &&& d.attempts.len() == 1 && d.attempts[0].id == id && d.attempts[0].url
                == parsed_link(m.entries[id].url)->Ok_0
            &&& !after.must_stop(id, d.attempts[0].generation)
            &&& after.begun(d.attempts[0]).1 is Run
            &&& d.reply is Done && d.save && d.cleanups.len() == 0
            &&& d.events == seq![EventView::Changed(after.entries[id])]
        },
        ({
            let (after, d) = answered(m, Request::Cancel { id }, now, on_disk, server);
            &&& after.entries[id].status == Status::Cancelled
            &&& m.entries[id].status.active() ==> after.must_stop(id, m.runtime[id].generation)
            &&& d.reply is Done && d.save && d.attempts.len() == 0
            &&& d.cleanups.len() == 1 && d.cleanups[0].event == Some(
                EventView::Changed(after.entries[id]),
            ) && d.cleanups[0].delete is None
            &&& !m.entries[id].status.active() ==> d.cleanups[0].discard == m.scratch(id)
        }),
        ({
            let (after, d) = answered(
                m,
                Request::Remove { id, delete_file },
                now,
                on_disk,
                server,
            );
            &&& d.reply is Done && d.attempts.len() == 0 && d.cleanups.len() == 1
            &&& m.entries[id].status.active() ==> after.must_stop(id, m.runtime[id].generation)
                && after.entries.dom().contains(id)
            &&& !m.entries[id].status.active() ==> {
                &&& !after.entries.dom().contains(id)
                &&& d.save
                &&& d.cleanups[0].event == Some(EventView::Removed(id))
                &&& d.cleanups[0].discard == m.scratch(id)
                &&& d.cleanups[0].delete is Some ==> delete_file
            }
        }),
        ({
            let (after, d) = answered(m, Request::Get { id }, now, on_disk, server);
            after == m && d.reply == (ReplyView::Entry { download: Some(m.entries[id]) })
        }),
{
}

/// A request that is refused changes nothing, and is answered with the reason.
pub proof fn law_a_refused_request_changes_nothing(
    m: ManagerView,
    id: u64,
    delete_file: bool,
    now: u64,
    on_disk: Seq<u64>,
    server: WelcomeView,
)
    requires
        !m.entries.dom().contains(id),
    ensures
        ({
            let no = DispatchedView::just(
                ReplyView::Error {
                    kind: ErrorKind::NotFound,
                    message: "no download with id "@ + text::decimal(id as nat),
                },
            );
            &&& answered(m, Request::Pause { id }, now, on_disk, server) == (m, no)
            &&& answered(m, Request::Resume { id }, now, on_disk, server) == (m, no)
            &&& answered(m, Request::Cancel { id }, now, on_disk, server) == (m, no)
            &&& answered(m, Request::Remove { id, delete_file }, now, on_disk, server) == (m, no)
        }),
        answered(m, Request::Get { id }, now, on_disk, server).1.reply == (ReplyView::Entry {
            download: None,
        }),
{
}

/// A request about the whole list is answered with the list, or with how many rows it
/// was about, and has the list saved where there were any.
pub proof fn law_the_whole_list_is_answered(
    m: ManagerView,
    now: u64,
    on_disk: Seq<u64>,
    server: WelcomeView,
)
    ensures
        ({
            let (after, d) = answered(m, Request::List, now, on_disk, server);
            after == m && d.reply == (ReplyView::List { downloads: m.listed() }) && !d.subscribe
        }),
        ({
            let (after, d) = answered(m, Request::Subscribe, now, on_disk, server);
            after == m && d.reply == (ReplyView::List { downloads: m.listed() }) && d.subscribe
        }),
        ({
            let (after, d) = answered(m, Request::PauseAll, now, on_disk, server);
            &&& d.reply == (ReplyView::Count { n: d.events.len() as int })
            &&& d.save <==> d.events.len() > 0
            &&& after == m.pausing(manager::active_ids(m.listed()), on_disk).0
        }),
        ({
            let (after, d) = answered(m, Request::ResumeAll, now, on_disk, server);
            let (expected, out) = m.resuming(manager::restartable_ids(m.listed()));
            &&& d.reply == (ReplyView::Count { n: d.attempts.len() as int })
            &&& d.attempts.len() == d.events.len() == out.len()
            &&& forall|k: int| 0 <= k < out.len() ==> d.attempts[k] == (#[trigger] out[k]).0
            &&& d.save <==> d.attempts.len() > 0
            &&& after == expected
        }),
        ({
            let (after, d) = answered(m, Request::ClearFinished, now, on_disk, server);
            &&& d.reply == (ReplyView::Count { n: d.cleanups.len() as int })
            &&& d.save <==> d.cleanups.len() > 0
            &&& after == m.clearing(manager::finished_ids(m.listed())).0
        }),
{
}

/// Nothing that happens to the list is kept from a subscriber: it gets each event, and
/// where it missed any, all the rows; only the end of the list ends its feed.
pub proof fn law_a_subscriber_misses_nothing(feed: Feed, list: Seq<EntryView>)
    ensures
        forwarded(feed, list) is None <==> feed is Closed,
        feed is Lagged ==> forwarded(feed, list) == Some(
            EventMessageView::Resync { downloads: list },
        ),
        feed matches Feed::Event(e) ==> match e@ {
            EventView::Added(r) => forwarded(feed, list) == Some(EventMessageView::Added(r)),
            EventView::Changed(r) => forwarded(feed, list) == Some(EventMessageView::Changed(r)),
            EventView::Removed(id) => forwarded(feed, list) == Some(
                EventMessageView::Removed { id },
            ),
        },
{
}

/// A client that went away ends its connection without a fault; any other failure of
/// the stream is reported as it is.
pub proof fn law_only_a_broken_stream_is_a_fault(
    greeted: bool,
    e: IoFault,
    server: WelcomeView,
    after: bool,
    step: SessionStep,
)
    requires
        is_session_step(greeted, Received::Fault(e), server, after, step),
    ensures
        after == greeted,
        e@.kind == IoKind::BrokenPipe || e@.kind == IoKind::ConnectionReset ==> step
            == SessionStep::End(Ok(())),
        e@.kind == IoKind::InvalidData && e@.code is None ==> (step matches SessionStep::End(Err(f))
            && f@ == e@),
{
}

/// A second greeting is answered like the first, and costs nothing; one of another
/// version is told so.
pub proof fn law_a_second_greeting_is_answered(
    m: ManagerView,
    protocol: u32,
    now: u64,
    on_disk: Seq<u64>,
    server: WelcomeView,
)
    ensures
        ({
            let (after, d) = answered(m, Request::Hello { protocol }, now, on_disk, server);
            &&& after == m && d.attempts.len() == 0 && d.cleanups.len() == 0 && !d.save
            &&& protocol == PROTOCOL_VERSION ==> d.reply == (ReplyView::Welcome {
                protocol: PROTOCOL_VERSION,
                server,
            })
            &&& protocol != PROTOCOL_VERSION ==> (d.reply matches ReplyView::Error { kind, .. }
                && kind == ErrorKind::VersionMismatch)
        }),
{
}

} // verus!
