//! Persistence for the download list.
//!
//! The list survives a restart, but only as far as it honestly can: the URL, the
//! destination and the byte count are saved; the browser headers are not.

use vstd::prelude::*;

use crate::config::components;
use crate::error::joined;
use crate::model::{rows, DownloadEntry, DownloadId, EntryView, Status};
use crate::naming;
use crate::text;

verus! {

/// Bumped when the on-disk shape changes incompatibly. A file from the future is
/// discarded rather than guessed at.
pub const FORMAT_VERSION: u32 = 1;

/// What the list's file holds.
#[derive(Debug, Clone, PartialEq, Eq)]
pub struct Snapshot {
    pub version: u32,
    pub next_id: DownloadId,
    pub entries: Vec<DownloadEntry>,
}

/// Where the list is kept.
#[derive(Debug, Clone, PartialEq, Eq)]
pub struct Store {
    path: String,
}

impl View for Store {
    type V = Seq<char>;

    closed spec fn view(&self) -> Seq<char> {
        self.path@
    }
}

/// A row after a restart. Nothing is running, so nothing may claim to be: a row
/// that was mid-flight is paused.
pub open spec fn settled(e: EntryView) -> EntryView {
    if e.status.active() {
        EntryView { status: Status::Paused, speed_bits: 0, active_connections: 0, ..e }
    } else {
        e
    }
}

/// The highest id of any row, zero when there is none.
pub open spec fn highest_id(v: Seq<EntryView>) -> u64
    decreases v.len(),
{
    if v.len() == 0 {
        0
    } else {
        let before = highest_id(v.drop_last());
        if v.last().id > before {
            v.last().id
        } else {
            before
        }
    }
}

/// The next id and the rows of a list that was saved, after a restart.
pub open spec fn restored(next_id: u64, v: Seq<EntryView>) -> (int, Seq<EntryView>) {
    (
        if next_id > highest_id(v) {
            next_id as int
        } else {
            highest_id(v) + 1
        },
        v.map_values(|e: EntryView| settled(e)),
    )
}

/// What a file that was read amounts to: nothing for a missing, unreadable or
/// future one, which starts an empty list.
pub open spec fn is_readable(snapshot: Option<Snapshot>) -> bool {
    snapshot is Some && snapshot->0.version == FORMAT_VERSION
}

impl Store {
    pub fn new(path: &str) -> (r: Store)
        ensures
            r@ == path@,
    {
        Store { path: path.to_owned() }
    }

    pub fn path(&self) -> (r: &str)
        ensures
            r@ == self@,
    {
        self.path.as_str()
    }

    /// Read the list back from what its file held, if it could be read and
    /// parsed. Returns the next id to hand out, and the rows.
    ///
    /// Anything that was mid-flight when the process died is rewritten as
    /// `Paused`: nothing is running, so reporting `Downloading` would show a
    /// frozen speed and a stop button that stops nothing.
    pub fn load(snapshot: Option<Snapshot>) -> (r: (DownloadId, Vec<DownloadEntry>))
        requires
            is_readable(snapshot) ==> highest_id(rows(snapshot->0.entries@)) < u64::MAX,
        ensures
            is_readable(snapshot) ==> (r.0 as int, rows(r.1@)) == restored(
                snapshot->0.next_id,
                rows(snapshot->0.entries@),
            ),
            !is_readable(snapshot) ==> r.0 == 1 && r.1@.len() == 0,
    {
        let snap = match snapshot {
            Some(s) => s,
            None => return (1, Vec::new()),
        };
        if snap.version != FORMAT_VERSION {
            return (1, Vec::new());
        }
        let ghost all = rows(snap.entries@);
        let mut out: Vec<DownloadEntry> = Vec::new();
        let mut highest: DownloadId = 0;
        let mut i: usize = 0;
        assert(all.take(0) =~= Seq::<EntryView>::empty());
        while i < snap.entries.len()
            invariant
                i <= snap.entries.len(),
                all == rows(snap.entries@),
                out.len() == i,
                highest == highest_id(all.take(i as int)),
                forall|k: int| 0 <= k < i ==> (#[trigger] out[k])@ == settled(all[k]),
            decreases snap.entries.len() - i,
        {
            let mut e: DownloadEntry = snap.entries[i].copied();
            proof {
                assert(all[i as int] == snap.entries@[i as int]@);
                assert(all.take(i + 1).drop_last() =~= all.take(i as int));
            }
            if e.id > highest {
                highest = e.id;
            }
            if e.status.is_active() {
                e.status = Status::Paused;
                e.speed_bits = 0;
                e.active_connections = 0;
            }
            out.push(e);
            i = i + 1;
        }
        assert(all.take(i as int) =~= all);
        assert(rows(out@) =~= all.map_values(|e: EntryView| settled(e)));
        let next: DownloadId = if snap.next_id > highest { snap.next_id } else { highest + 1 };
        (next, out)
    }

    /// Where the list's file is by default, as components to join. Local data and
    /// not roaming: a half-finished download refers to a file on this machine.
    pub fn default_path(local_data: Option<&str>, home: Option<&str>, system_temp: &str) -> (r: Vec<
        String,
    >)
        ensures
            components(r@) == (if local_data is Some {
                seq![local_data->0@, "FDM"@, "downloads.json"@]
            } else if home is Some && home->0@.len() > 0 {
                seq![home->0@, "AppData\\Local"@, "FDM"@, "downloads.json"@]
            } else {
                seq![system_temp@, "FDM"@, "downloads.json"@]
            }),
    {
        let mut r: Vec<String> = Vec::new();
        match (local_data, home) {
            (Some(d), _) => {
                r.push(d.to_owned());
            },
            (None, Some(h)) => if !h.is_empty() {
                r.push(h.to_owned());
                r.push("AppData\\Local".to_owned());
            } else {
                r.push(system_temp.to_owned());
            },
            (None, None) => {
                r.push(system_temp.to_owned());
            },
        }
        r.push("FDM".to_owned());
        r.push("downloads.json".to_owned());
        proof {
            if local_data is Some {
                assert(components(r@) =~= seq![local_data->0@, "FDM"@, "downloads.json"@]);
            } else if home is Some && home->0@.len() > 0 {
                assert(components(r@) =~= seq![
                    home->0@,
                    "AppData\\Local"@,
                    "FDM"@,
                    "downloads.json"@,
                ]);
            } else {
                assert(components(r@) =~= seq![system_temp@, "FDM"@, "downloads.json"@]);
            }
        }
        r
    }

    /// The name of the file a save is written to before it replaces the list's
    /// file, given that file's name. It is in the same directory, so the rename is
    /// on one volume and therefore atomic.
    pub fn staging_name(name: &str) -> (r: String)
        ensures
            r@ == (match naming::file_stem(name@, false) {
                Some(stem) => stem + ".json.tmp"@,
                None => name@,
            }),
    {
        let chars = text::chars_of(name);
        match naming::file_stem_of(chars.as_slice(), false) {
            Some(stem) => joined(text::text_of(stem).as_str(), ".json.tmp"),
            None => name.to_owned(),
        }
    }

    /// What to write to the list's file.
    pub fn snapshot(next_id: DownloadId, entries: Vec<DownloadEntry>) -> (r: Snapshot)
        ensures
            r.version == FORMAT_VERSION,
            r.next_id == next_id,
            r.entries == entries,
    {
        Snapshot { version: FORMAT_VERSION, next_id, entries }
    }
}

proof fn lemma_highest_bounds(v: Seq<EntryView>, i: int)
    requires
        0 <= i < v.len(),
    ensures
        v[i].id <= highest_id(v),
    decreases v.len(),
{
    if i < v.len() - 1 {
        lemma_highest_bounds(v.drop_last(), i);
        assert(v.drop_last()[i] == v[i]);
    }
}

/// Whatever a list's file says, the next id can never collide with a saved row,
/// nothing claims to be running, and finished rows are untouched.
pub proof fn law_restored_list_is_honest(v: Seq<EntryView>, next_id: u64, i: int)
    requires
        0 <= i < v.len(),
        next_id > highest_id(v),
    ensures
        v[i].id < next_id,
        settled(v[i]).id == v[i].id,
        !settled(v[i]).status.active(),
        !v[i].status.active() ==> settled(v[i]) == v[i],
{
    lemma_highest_bounds(v, i);
}

/// Saving a list that has nothing running, and reading it back, changes nothing.
pub proof fn law_saved_list_round_trips(v: Seq<EntryView>, next_id: u64)
    requires
        forall|i: int| 0 <= i < v.len() ==> !(#[trigger] v[i]).status.active(),
        next_id > highest_id(v),
    ensures
        v.map_values(|e: EntryView| settled(e)) == v,
{
    assert(v.map_values(|e: EntryView| settled(e)) =~= v);
}

/// A restart loses nothing of a row: what it is, where it is from and goes to, and how
/// far it got. One that was running is paused, and the next id is beyond every row's
/// and no lower than the saved one.
pub proof fn law_a_restart_loses_nothing(next_id: u64, v: Seq<EntryView>, i: int)
    requires
        0 <= i < v.len(),
    ensures
        ({
            let (next, rows) = restored(next_id, v);
            &&& rows.len() == v.len()
            &&& rows[i].id == v[i].id && rows[i].url == v[i].url && rows[i].path == v[i].path
            &&& rows[i].filename == v[i].filename && rows[i].downloaded == v[i].downloaded
            &&& rows[i].total == v[i].total && rows[i].resumable == v[i].resumable
            &&& rows[i].error == v[i].error && rows[i].added_at == v[i].added_at
            &&& rows[i].category == v[i].category && rows[i].finished_at == v[i].finished_at
            &&& v[i].status == Status::Queued || v[i].status == Status::Connecting || v[i].status
                == Status::Downloading ==> rows[i].status == Status::Paused && rows[i].speed_bits
                == 0 && rows[i].active_connections == 0
            &&& v[i].status == Status::Paused || v[i].status == Status::Completed || v[i].status
                == Status::Failed || v[i].status == Status::Cancelled ==> rows[i] == v[i]
            &&& v[i].id < next && next_id <= next
        }),
        restored(next_id, Seq::empty()).0 >= 1,
{
    lemma_highest_bounds(v, i);
}

} // verus!
