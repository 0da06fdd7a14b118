//! The table of downloads that the manager keeps for the user, and how each
//! report from an entry changes it.

use std::collections::HashMap;
use vstd::prelude::*;
use crate::downloader::entry::{self, DeletePlan, Entry, SegmentTask};
use crate::downloader::worker;

verus! {

broadcast use vstd::std_specs::hash::group_hash_axioms;

/// A command that the manager hands on to a new entry.
pub enum Command {
    Enqueue { id: usize, url: String, name: String },
}

/// Progress of one segment as the user sees it: `received` of `length`
/// bytes, and whether the segment failed.
#[derive(Clone, Copy, Debug, PartialEq, Eq, Structural)]
pub struct Progress {
    pub received: usize,
    pub length: usize,
    pub failed: bool,
}

/// One download as the user sees it.
pub struct Download {
    pub id: usize,
    pub progress: Vec<Progress>,
    pub name: String,
    /// The destination file is complete.
    pub ready: bool,
}

/// The shared state read by the presentation layer: the downloads, keyed
/// by entry id.
pub struct AppState {
    pub last_id: usize,
    pub downloads: HashMap<usize, Download>,
}

pub open spec fn fresh_progress() -> Progress {
    Progress { received: 0, length: 0, failed: false }
}

/// Which download a report is about.
pub open spec fn target(resp: entry::Response) -> usize {
    match resp {
        entry::Response::Sized { id, .. } => id.entry_id,
        entry::Response::MadeProgress { id, .. } => id.entry_id,
        entry::Response::Succeed { id } => id.entry_id,
        entry::Response::SucceedGlobal { id } => id.entry_id,
        entry::Response::Failed { id, .. } => id.entry_id,
        entry::Response::FailedGlobal { id, .. } => id.entry_id,
    }
}

/// A segment's progress after a report about it; reports about a segment
/// the table does not show change nothing.
pub open spec fn progress_after(p: Seq<Progress>, resp: entry::Response) -> Seq<Progress> {
    match resp {
        entry::Response::Sized { segments, .. } => Seq::new(
            segments as nat,
            |k: int| fresh_progress(),
        ),
        entry::Response::MadeProgress { id, received, length } => if id.worker_index < p.len() {
            p.update(
                id.worker_index as int,
                Progress { received, length, ..p[id.worker_index as int] },
            )
        } else {
            p
        },
        entry::Response::Succeed { id } => if id.worker_index < p.len() {
            let full = if p[id.worker_index as int].length == 0 {
                1usize
            } else {
                p[id.worker_index as int].length
            };
            p.update(
                id.worker_index as int,
                Progress { received: full, length: full, ..p[id.worker_index as int] },
            )
        } else {
            p
        },
        entry::Response::Failed { id, .. } => if id.worker_index < p.len() {
            p.update(id.worker_index as int, Progress { failed: true, ..p[id.worker_index as int] })
        } else {
            p
        },
        _ => p,
    }
}

impl AppState {
    /// Each download sits under its own id, and every id in the table was
    /// handed out already.
    pub open spec fn wf(&self) -> bool {
        forall|id: usize|
            #[trigger] self.downloads@.contains_key(id) ==> self.downloads@[id].id == id && id
                < self.last_id
    }

    pub open spec fn holds(&self, id: usize) -> bool {
        self.downloads@.contains_key(id)
    }

    pub fn new() -> (r: AppState)
        ensures
            r.wf(),
            r.last_id == 0,
            r.downloads@ == Map::<usize, Download>::empty(),
    {
        AppState { last_id: 0, downloads: HashMap::new() }
    }

    /// Hands out the next entry id; none once the ids are used up.
    pub fn next_id(&mut self) -> (r: Option<usize>)
        requires
            old(self).wf(),
        ensures
            final(self).wf(),
            final(self).downloads == old(self).downloads,
            old(self).last_id == usize::MAX ==> (r is None && final(self).last_id
                == old(self).last_id),
            old(self).last_id < usize::MAX ==> (r == Some(old(self).last_id)
                && final(self).last_id == old(self).last_id + 1),
    {
        if self.last_id == usize::MAX {
            return None;
        }
        let id = self.last_id;
        self.last_id = self.last_id + 1;
        Some(id)
    }

    /// Adds a download of `url` into `name` that shows `par` segments until
    /// its size is known, and returns the command that starts its entry.
    /// The download takes the next id; none once the ids are used up.
    pub fn enqueue(&mut self, url: String, name: String, par: usize) -> (r: Option<Command>)
        requires
            old(self).wf(),
        ensures
            final(self).wf(),
            old(self).last_id == usize::MAX ==> (r is None && *final(self) == *old(self)),
            old(self).last_id < usize::MAX ==> {
                let id = old(self).last_id;
                &&& final(self).last_id == id + 1
                &&& !old(self).holds(id)
                &&& r == Some(Command::Enqueue { id, url: url, name: name })
                &&& final(self).holds(id)
                &&& final(self).downloads@.remove(id) == old(self).downloads@
                &&& final(self).downloads@[id].id == id
                &&& final(self).downloads@[id].name == name
                &&& !final(self).downloads@[id].ready
                &&& final(self).downloads@[id].progress@ == Seq::new(
                    par as nat,
                    |k: int| fresh_progress(),
                )
            },
    {
        let id = match self.next_id() {
            Some(id) => id,
            None => {
                return None;
            },
        };
        let mut progress: Vec<Progress> = Vec::new();
        let mut k: usize = 0;
        while k < par
            invariant
                k <= par,
                progress@ == Seq::new(k as nat, |j: int| fresh_progress()),
            decreases par - k,
        {
            progress.push(Progress { received: 0, length: 0, failed: false });
            k = k + 1;
            assert(progress@ =~= Seq::new(k as nat, |j: int| fresh_progress()));
        }
        let dn = name.clone();
        self.downloads.insert(id, Download { id, progress, name: dn, ready: false });
        assert(self.downloads@.remove(id) =~= old(self).downloads@);
        Some(Command::Enqueue { id, url, name })
    }

    /// Removes download `id` from the table, as when its entry is deleted.
    pub fn remove(&mut self, id: usize)
        requires
            old(self).wf(),
        ensures
            final(self).wf(),
            final(self).last_id == old(self).last_id,
            final(self).downloads@ == old(self).downloads@.remove(id),
    {
        self.downloads.remove(&id);
    }

    /// Applies a report from an entry to the table and returns the text to
    /// show the user, for failures. A report about a download the table does
    /// not hold changes nothing. A whole-entry failure removes the download.
    pub fn apply(&mut self, resp: entry::Response) -> (r: Option<String>)
        requires
            old(self).wf(),
        ensures
            final(self).wf(),
            final(self).last_id == old(self).last_id,
            !old(self).holds(target(resp)) ==> (final(self).downloads@ == old(self).downloads@
                && r is None),
            resp matches entry::Response::FailedGlobal { id, reason } ==> (old(self).holds(
                id.entry_id,
            ) ==> (r == Some(reason) && final(self).downloads@ == old(self).downloads@.remove(
                id.entry_id,
            ))),
            !(resp is FailedGlobal) ==> (old(self).holds(target(resp)) ==> {
                let t = target(resp);
                let (o, n) = (old(self).downloads@[t], final(self).downloads@[t]);
                &&& final(self).holds(t)
                &&& final(self).downloads@.remove(t) == old(self).downloads@.remove(t)
                &&& n.id == o.id
                &&& n.name == o.name
                &&& n.progress@ == progress_after(o.progress@, resp)
                &&& n.ready == (o.ready || resp is SucceedGlobal)
            }),
            resp matches entry::Response::Failed { reason, .. } ==> (old(self).holds(
                target(resp),
            ) ==> r == Some(reason)),
            !(resp is Failed || resp is FailedGlobal) ==> r is None,
    {
        let t = match &resp {
            entry::Response::Sized { id, .. } => id.entry_id,
            entry::Response::MadeProgress { id, .. } => id.entry_id,
            entry::Response::Succeed { id } => id.entry_id,
            entry::Response::SucceedGlobal { id } => id.entry_id,
            entry::Response::Failed { id, .. } => id.entry_id,
            entry::Response::FailedGlobal { id, .. } => id.entry_id,
        };
        if !self.downloads.contains_key(&t) {
            return None;
        }
        if let entry::Response::FailedGlobal { reason, .. } = resp {
            self.downloads.remove(&t);
            return Some(reason);
        }
        let mut d = match self.downloads.remove(&t) {
            Some(d) => d,
            None => {
                return None;
            },
        };
        let note = match resp {
            entry::Response::Sized { segments, .. } => {
                let mut progress: Vec<Progress> = Vec::new();
                let mut k: usize = 0;
                while k < segments
                    invariant
                        k <= segments,
                        progress@ == Seq::new(k as nat, |j: int| fresh_progress()),
                    decreases segments - k,
                {
                    progress.push(Progress { received: 0, length: 0, failed: false });
                    k = k + 1;
                    assert(progress@ =~= Seq::new(k as nat, |j: int| fresh_progress()));
                }
                d.progress = progress;
                None
            },
            entry::Response::MadeProgress { id, received, length } => {
                let k = id.worker_index;
                if k < d.progress.len() {
                    let mut p = d.progress[k];
                    p.received = received;
                    p.length = length;
                    d.progress[k] = p;
                }
                None
            },
            entry::Response::Succeed { id } => {
                let k = id.worker_index;
                if k < d.progress.len() {
                    let mut p = d.progress[k];
                    if p.length == 0 {
                        p.length = 1;
                    }
                    p.received = p.length;
                    d.progress[k] = p;
                }
                None
            },
            entry::Response::SucceedGlobal { .. } => {
                d.ready = true;
                None
            },
            entry::Response::Failed { id, reason } => {
                let k = id.worker_index;
                if k < d.progress.len() {
                    let mut p = d.progress[k];
                    p.failed = true;
                    d.progress[k] = p;
                }
                Some(reason)
            },
            entry::Response::FailedGlobal { reason, .. } => Some(reason),
        };
        self.downloads.insert(t, d);
        assert(self.downloads@.remove(t) =~= old(self).downloads@.remove(t));
        note
    }
}

/// What the caller does after the manager took a command.
pub enum Action {
    /// Probe the size of `url` for entry `id`.
    Probe { id: usize, url: String },
    /// Run these segments.
    Spawn { tasks: Vec<SegmentTask> },
    /// Cancel workers and remove files of a deleted entry.
    Cleanup { plan: DeletePlan },
    /// Show `reason`: the new entry failed at once.
    Notify { reason: String },
    /// Nothing to do: the command named no live entry.
    Nothing,
}

/// The download manager: the live entries, keyed by id, and the table the
/// user sees.
pub struct Manager {
    pub state: AppState,
    pub entries: Vec<Entry>,
}

impl Manager {
    pub open spec fn wf(&self) -> bool {
        &&& self.state.wf()
        &&& forall|i: int| 0 <= i < self.entries@.len() ==> (#[trigger] self.entries@[i]).wf()
        &&& forall|i: int, j: int|
            0 <= i < j < self.entries@.len() ==> #[trigger] self.entries@[i].id
                != #[trigger] self.entries@[j].id
        &&& forall|i: int|
            0 <= i < self.entries@.len() ==> #[trigger] self.entries@[i].id < self.state.last_id
    }

    pub open spec fn has_entry(&self, id: usize) -> bool {
        exists|i: int| 0 <= i < self.entries@.len() && #[trigger] self.entries@[i].id == id
    }

    pub fn new() -> (r: Manager)
        ensures
            r.wf(),
            r.entries@.len() == 0,
            r.state.downloads@ == Map::<usize, Download>::empty(),
            r.state.last_id == 0,
    {
        Manager { state: AppState::new(), entries: Vec::new() }
    }

    fn find_entry(&self, id: usize) -> (r: Option<usize>)
        ensures
            r matches Some(i) ==> (i < self.entries@.len() && self.entries@[i as int].id == id),
            r is None ==> !self.has_entry(id),
    {
        let mut i: usize = 0;
        while i < self.entries.len()
            invariant
                i <= self.entries@.len(),
                forall|j: int| 0 <= j < i ==> self.entries@[j].id != id,
            decreases self.entries@.len() - i,
        {
            if self.entries[i].id == id {
                return Some(i);
            }
            i = i + 1;
        }
        None
    }

    /// Takes a command from the user. Enqueue adds a download and an entry
    /// and asks for the size probe; an entry whose URL does not parse is
    /// dropped at once with its reason. Restart reruns the failed segments of entry `id`.
    /// Delete removes the entry and its download and hands out the cleanup.
    /// Restart and Delete of an unknown id do nothing.
    pub fn command(&mut self, cmd: super::Command, par: usize) -> (r: Action)
        requires
            old(self).wf(),
        ensures
            final(self).wf(),
            cmd matches super::Command::Restart { id } ==> (!old(self).has_entry(id) ==> (
            *final(self) == *old(self) && r is Nothing)),
            cmd matches super::Command::Delete { id } ==> (!old(self).has_entry(id) ==> (
            *final(self) == *old(self) && r is Nothing)),
            cmd matches super::Command::Restart { id } ==> (forall|i: int|
                0 <= i < old(self).entries@.len() && #[trigger] old(self).entries@[i].id == id
                    ==> {
                    let (o, segs) = (old(self).entries@[i], old(self).entries@[i].segments@);
                    &&& final(self).state == old(self).state
                    &&& final(self).entries@.len() == old(self).entries@.len()
                    &&& forall|j: int|
                        0 <= j < old(self).entries@.len() && j != i ==> final(self).entries@[j]
                            == old(self).entries@[j]
                    &&& final(self).entries@[i].segments@ == (if o.phase is Active {
                        entry::restarted(segs)
                    } else {
                        segs
                    })
                    &&& r matches Action::Spawn { tasks } && tasks@.len() == (if o.phase is Active {
                        entry::indices_in(segs, false).len()
                    } else {
                        0
                    }) && forall|k: int|
                        0 <= k < tasks@.len() ==> tasks@[k] == o.task(entry::indices_in(segs, false)[k])
                }),
            cmd matches super::Command::Delete { id } ==> (forall|i: int|
                0 <= i < old(self).entries@.len() && #[trigger] old(self).entries@[i].id == id
                    ==> {
                    let (o, segs) = (old(self).entries@[i], old(self).entries@[i].segments@);
                    &&& final(self).entries@ == old(self).entries@.remove(i)
                    &&& !final(self).state.holds(id)
                    &&& r matches Action::Cleanup { plan } && plan.cancel@ == entry::indices_in(
                        segs,
                        true,
                    ).map_values(|k: int| worker::WorkerId { entry_id: id, worker_index: k as usize })
                        && plan.remove@.map_values(|p: String| p@) == (if o.phase is Succeeded {
                        Seq::<Seq<char>>::empty()
                    } else {
                        entry::succeeded_paths(segs)
                    })
                }),
            cmd matches super::Command::Enqueue { url, .. } ==> (old(self).state.last_id
                == usize::MAX ==> (*final(self) == *old(self) && r is Nothing)),
            cmd matches super::Command::Enqueue { url, name } ==> ((old(self).state.last_id
                < usize::MAX && entry::url_parses(url@)) ==> {
                let id = old(self).state.last_id;
                &&& r == (Action::Probe { id, url })
                &&& final(self).state.last_id == id + 1
                &&& final(self).entries@.len() == old(self).entries@.len() + 1
                &&& final(self).entries@.drop_last() == old(self).entries@
                &&& final(self).entries@.last().id == id
                &&& final(self).entries@.last().name == name
                &&& (final(self).entries@.last().phase is Sizing)
                &&& final(self).state.downloads@.remove(id) == old(self).state.downloads@
                &&& final(self).state.downloads@[id].id == id
                &&& final(self).state.downloads@[id].name == name
                &&& !final(self).state.downloads@[id].ready
                &&& final(self).state.downloads@[id].progress@ == Seq::new(
                    par as nat,
                    |k: int| fresh_progress(),
                )
            }),
            cmd matches super::Command::Enqueue { url, .. } ==> ((old(self).state.last_id
                < usize::MAX && !entry::url_parses(url@)) ==> (r is Notify
                && final(self).entries == old(self).entries
                && final(self).state.last_id == old(self).state.last_id + 1
                && final(self).state.downloads@ == old(self).state.downloads@)),
    {
        match cmd {
            super::Command::Enqueue { url, name } => {
                let ghost old_self = *self;
                let (id, url, name) = match self.state.enqueue(url, name, par) {
                    Some(Command::Enqueue { id, url, name }) => (id, url, name),
                    None => {
                        return Action::Nothing;
                    },
                };
                match Entry::start(id, url.as_str(), name) {
                    Ok(e) => {
                        self.entries.push(e);
                        assert(self.entries@.drop_last() =~= old_self.entries@);
                        Action::Probe { id, url }
                    },
                    Err(report) => {
                        let note = self.state.apply(report);
                        assert(self.state.downloads@ =~= old_self.state.downloads@);
                        match note {
                            Some(reason) => Action::Notify { reason },
                            None => Action::Nothing,
                        }
                    },
                }
            },
            super::Command::Restart { id } => {
                match self.find_entry(id) {
                    Some(i) => {
                        let mut e = self.entries.remove(i);
                        let tasks = e.restart();
                        self.entries.insert(i, e);
                        Action::Spawn { tasks }
                    },
                    None => Action::Nothing,
                }
            },
            super::Command::Delete { id } => {
                match self.find_entry(id) {
                    Some(i) => {
                        let mut e = self.entries.remove(i);
                        let plan = e.delete();
                        self.state.remove(id);
                        Action::Cleanup { plan }
                    },
                    None => Action::Nothing,
                }
            },
        }
    }

    /// A report from a worker, routed to its entry by id; what the entry
    /// passes on is applied to the table, and the text to show for a
    /// failure is returned. Reports for an entry that is gone are dropped.
    pub fn on_report(&mut self, resp: worker::Response) -> (r: Option<String>)
        requires
            old(self).wf(),
        ensures
            final(self).wf(),
            final(self).entries@.len() == old(self).entries@.len(),
            final(self).state.last_id == old(self).state.last_id,
            !old(self).has_entry(resp.worker().entry_id) ==> (*final(self) == *old(self)
                && r is None),
            forall|i: int|
                0 <= i < old(self).entries@.len() && #[trigger] old(self).entries@[i].id
                    != resp.worker().entry_id ==> final(self).entries@[i] == old(self).entries@[i],
            forall|i: int|
                0 <= i < old(self).entries@.len() && #[trigger] old(self).entries@[i].id
                    == resp.worker().entry_id ==> {
                    let (o, n) = (old(self).entries@[i], final(self).entries@[i]);
                    &&& n.id == o.id
                    &&& n.segments@ == entry::segments_after(o, resp)
                    &&& n.phase == entry::phase_after(o, resp)
                    &&& entry::report_after(o, resp) is None ==> (final(self).state
                        == old(self).state && r is None)
                    &&& entry::report_after(o, resp) matches Some(rep) ==> (old(self).state.holds(o.id)
                        && !(rep is FailedGlobal) ==> final(self).state.downloads@[o.id].progress@
                        == progress_after(old(self).state.downloads@[o.id].progress@, rep))
                    &&& entry::report_after(o, resp) matches Some(
                        entry::Response::Failed { reason, .. },
                    ) ==> (old(self).state.holds(o.id) ==> r == Some(reason))
                },
    {
        let target = match &resp {
            worker::Response::MadeProgress { id, .. } => id.entry_id,
            worker::Response::Succeed { id, .. } => id.entry_id,
            worker::Response::Failed { id, .. } => id.entry_id,
        };
        let i = match self.find_entry(target) {
            Some(i) => i,
            None => {
                return None;
            },
        };
        let ghost old_entries = self.entries@;
        let mut e = self.entries.remove(i);
        let report = e.on_worker(resp);
        self.entries.insert(i, e);
        assert forall|a: int, b: int|
            0 <= a < b < self.entries@.len() implies #[trigger] self.entries@[a].id
            != #[trigger] self.entries@[b].id by {
            assert(self.entries@[a].id == old_entries[a].id);
            assert(self.entries@[b].id == old_entries[b].id);
        }
        match report {
            Some(rep) => self.state.apply(rep),
            None => None,
        }
    }
}

} // verus!
