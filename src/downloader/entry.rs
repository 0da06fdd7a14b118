use vstd::prelude::*;
use vstd::string::StringExecFns;
use crate::downloader::worker::{self, WorkerId};

verus! {

/// Identity of an entry, one logical download.
#[derive(Clone, Copy, Debug, PartialEq, Eq, Structural)]
pub struct EntryId {
    pub entry_id: usize,
}

/// What an entry reports to the manager.
#[allow(inconsistent_fields)]
pub enum Response {
    /// The resource's size is known and it was split into `segments` parts.
    Sized { id: EntryId, segments: usize },
    MadeProgress { id: WorkerId, received: usize, length: usize },
    Succeed { id: WorkerId },
    /// Every segment arrived and the destination file is complete.
    SucceedGlobal { id: EntryId },
    Failed { id: WorkerId, reason: String },
    /// The entry as a whole failed.
    FailedGlobal { id: EntryId, reason: String },
}

/// Where one segment of an entry stands.
pub enum SegmentState {
    Running,
    /// The segment's bytes are in the temporary file `filepath`.
    Succeeded { filepath: String },
    Failed,
}

#[derive(Clone, Copy, Debug, PartialEq, Eq, Structural)]
pub enum EntryPhase {
    /// Waiting for the size of the resource.
    Sizing,
    /// Segments are running, or some have failed and wait for a restart.
    Active,
    /// Every segment succeeded; their files are being joined.
    Merging,
    Succeeded,
    Failed,
    Deleted,
}

/// A segment for the caller to run: fetch `range` of the entry's resource.
pub struct SegmentTask {
    pub id: WorkerId,
    pub range: (usize, usize),
}

/// What the caller does when an entry is deleted: cancel the workers still
/// running (each removes its own file) and remove the files of segments
/// that succeeded but were not merged.
pub struct DeletePlan {
    pub cancel: Vec<WorkerId>,
    pub remove: Vec<String>,
}

pub uninterp spec fn url_parses(s: Seq<char>) -> bool;

/// Relies on `url::Url::parse`: whether `s` is an absolute URL, with the
/// parser's message when it is not.
#[verifier::external_body]
fn check_url(s: &str) -> (r: Result<(), String>)
    ensures
        r is Ok <==> url_parses(s@),
{
    match url::Url::parse(s) {
        Ok(_) => Ok(()),
        Err(e) => Err(e.to_string()),
    }
}

pub open spec fn all_succeeded(segs: Seq<SegmentState>) -> bool {
    forall|i: int| 0 <= i < segs.len() ==> segs[i] is Succeeded
}

/// The files to join, by segment index.
pub open spec fn merge_paths(segs: Seq<SegmentState>) -> Seq<Seq<char>> {
    Seq::new(segs.len(), |i: int| segs[i]->filepath@)
}

/// Files of the segments that succeeded, by segment index.
pub open spec fn succeeded_paths(segs: Seq<SegmentState>) -> Seq<Seq<char>>
    decreases segs.len(),
{
    if segs.len() == 0 {
        Seq::empty()
    } else {
        let rest = succeeded_paths(segs.drop_last());
        match segs.last() {
            SegmentState::Succeeded { filepath } => rest.push(filepath@),
            _ => rest,
        }
    }
}

/// Indices of the segments in `segs` that are running (when `running`) or
/// have failed (otherwise), ascending.
pub open spec fn indices_in(segs: Seq<SegmentState>, running: bool) -> Seq<int>
    decreases segs.len(),
{
    if segs.len() == 0 {
        Seq::empty()
    } else {
        let rest = indices_in(segs.drop_last(), running);
        if (running && segs.last() is Running) || (!running && segs.last() is Failed) {
            rest.push(segs.len() - 1)
        } else {
            rest
        }
    }
}

/// The segments after a restart: failed ones run again, the others stay.
pub open spec fn restarted(segs: Seq<SegmentState>) -> Seq<SegmentState> {
    Seq::new(
        segs.len(),
        |i: int|
            if segs[i] is Failed {
                SegmentState::Running
            } else {
                segs[i]
            },
    )
}

/// The segments after success reports `(index, file)` arrive in the order
/// given.
pub open spec fn apply_successes(segs: Seq<SegmentState>, events: Seq<(int, String)>) -> Seq<
    SegmentState,
>
    decreases events.len(),
{
    if events.len() == 0 {
        segs
    } else {
        apply_successes(segs, events.drop_last()).update(
            events.last().0,
            SegmentState::Succeeded { filepath: events.last().1 },
        )
    }
}

/// Number of segments a resource of `total` bytes is split into when
/// `par` workers may run at once: never more segments than bytes.
pub open spec fn segment_count(total: nat, par: nat) -> nat {
    if total < par {
        total
    } else {
        par
    }
}

/// Length of every segment but the last one.
pub open spec fn base_length(total: nat, par: nat) -> nat {
    if segment_count(total, par) == 0 {
        0
    } else {
        total / segment_count(total, par)
    }
}

/// First byte of segment `i`.
pub open spec fn range_start(total: nat, par: nat, i: int) -> int {
    i * base_length(total, par)
}

/// Last byte (inclusive) of segment `i`: the last segment runs to the end of
/// the resource and so takes whatever the division left over.
pub open spec fn range_end(total: nat, par: nat, i: int) -> int {
    if i + 1 == segment_count(total, par) {
        total - 1
    } else {
        (i + 1) * base_length(total, par) - 1
    }
}

/// Number of bytes covered by the first `k` planned segments.
pub open spec fn planned_length(total: nat, par: nat, k: nat) -> int
    decreases k,
{
    if k == 0 {
        0
    } else {
        planned_length(total, par, (k - 1) as nat) + (range_end(total, par, k - 1) - range_start(
            total,
            par,
            k - 1,
        ) + 1)
    }
}

proof fn lemma_prefix_length(total: nat, par: nat, k: nat)
    requires
        k < segment_count(total, par),
    ensures
        planned_length(total, par, k) == k * base_length(total, par),
    decreases k,
{
    if k > 0 {
        lemma_prefix_length(total, par, (k - 1) as nat);
        let b = base_length(total, par);
        assert(k * b == (k - 1) * b + b) by (nonlinear_arith);
        assert(range_end(total, par, k - 1) == k * b - 1);
        assert(range_start(total, par, k - 1) == (k - 1) * b);
        assert(planned_length(total, par, k) == planned_length(total, par, (k - 1) as nat) + b);
    } else {
        assert(0 * base_length(total, par) == 0);
    }
}

/// Every planned segment is non-empty and lies inside the resource.
pub proof fn lemma_ranges_inside(total: nat, par: nat)
    requires
        total >= 1,
        par >= 1,
    ensures
        forall|i: int|
            0 <= i < segment_count(total, par) ==> 0 <= #[trigger] range_start(total, par, i)
                <= range_end(total, par, i) <= total - 1,
{
    let n = segment_count(total, par);
    let b = base_length(total, par);
    assert(b >= 1 && n * b <= total) by (nonlinear_arith)
        requires
            1 <= n <= total,
            b == total / n,
    ;
    assert forall|i: int| 0 <= i < n implies 0 <= #[trigger] range_start(total, par, i)
        <= range_end(total, par, i) <= total - 1 by {
        assert(0 <= i * b && i * b + b <= n * b) by (nonlinear_arith)
            requires
                0 <= i < n,
                b >= 1,
        ;
        assert((i + 1) * b == i * b + b) by (nonlinear_arith);
    }
}

/// A non-empty resource is split into segments that are each non-empty,
/// follow one another without gap or overlap in ascending order, start at
/// byte 0, end at the last byte, and together cover exactly `total` bytes.
pub proof fn lemma_ranges_partition(total: nat, par: nat)
    requires
        total >= 1,
        par >= 1,
    ensures
        segment_count(total, par) >= 1,
        range_start(total, par, 0) == 0,
        range_end(total, par, segment_count(total, par) - 1) == total - 1,
        forall|i: int|
            0 <= i < segment_count(total, par) ==> range_start(total, par, i) <= range_end(
                total,
                par,
                i,
            ),
        forall|i: int|
            0 <= i < segment_count(total, par) - 1 ==> range_start(total, par, i + 1)
                == range_end(total, par, i) + 1,
        forall|i: int, j: int|
            0 <= i < j < segment_count(total, par) ==> range_end(total, par, i) < range_start(
                total,
                par,
                j,
            ),
        planned_length(total, par, segment_count(total, par)) == total,
{
    let n = segment_count(total, par);
    let b = base_length(total, par);
    assert(b >= 1 && n * b <= total) by (nonlinear_arith)
        requires
            1 <= n <= total,
            b == total / n,
    ;
    assert(range_start(total, par, 0) == 0);
    assert forall|i: int| 0 <= i < n implies range_start(total, par, i) <= range_end(
        total,
        par,
        i,
    ) by {
        assert(i * b + b <= n * b) by (nonlinear_arith)
            requires
                0 <= i < n,
                b >= 1,
        ;
        assert((i + 1) * b == i * b + b) by (nonlinear_arith);
    }
    assert forall|i: int, j: int| 0 <= i < j < n implies range_end(total, par, i) < range_start(
        total,
        par,
        j,
    ) by {
        assert((i + 1) * b <= j * b) by (nonlinear_arith)
            requires
                0 <= i < j,
                b >= 1,
        ;
    }
    lemma_prefix_length(total, par, (n - 1) as nat);
}

/// The smaller of two sizes.
pub fn min(a: usize, b: usize) -> (r: usize)
    ensures
        r == if a > b { b } else { a },
{
    if a > b {
        b
    } else {
        a
    }
}

/// Splits `total` bytes into at most `par` inclusive ranges: all but the
/// last have `total / count` bytes, the last one takes the rest. An empty
/// resource gives no range at all.
pub fn calculate_ranges(total: usize, par: usize) -> (v: Vec<(usize, usize)>)
    requires
        par >= 1,
    ensures
        v@.len() == segment_count(total as nat, par as nat),
        forall|i: int|
            0 <= i < v@.len() ==> (#[trigger] v@[i]).0 == range_start(total as nat, par as nat, i)
                && v@[i].1 == range_end(total as nat, par as nat, i),
{
    let count = min(total, par);
    let mut v: Vec<(usize, usize)> = Vec::new();
    if count == 0 {
        return v;
    }
    let base = total / count;
    assert(base >= 1) by (nonlinear_arith)
        requires
            count <= total,
            count >= 1,
            base == total / count,
    ;
    let mut start: usize = 0;
    let mut i: usize = 0;
    while i < count
        invariant
            count == segment_count(total as nat, par as nat),
            count >= 1,
            base >= 1,
            base == base_length(total as nat, par as nat),
            i <= count,
            start == i * base,
            v@.len() == i,
            forall|j: int|
                0 <= j < i ==> v@[j].0 == range_start(total as nat, par as nat, j)
                    && v@[j].1 == range_end(total as nat, par as nat, j),
        decreases count - i,
    {
        assert((i + 1) * base <= total) by (nonlinear_arith)
            requires
                i < count,
                base == total / count,
                count >= 1,
        ;
        assert(start + base == (i + 1) * base) by (nonlinear_arith)
            requires
                start == i * base,
        ;
        let end = if i + 1 == count {
            total - 1
        } else {
            start + base - 1
        };
        v.push((start, end));
        start = start + base;
        i = i + 1;
    }
    v
}

/// The segments of `e` after the worker report `resp`.
pub open spec fn segments_after(e: Entry, resp: worker::Response) -> Seq<SegmentState> {
    if !e.accepts(resp.worker()) {
        e.segments@
    } else {
        match resp {
            worker::Response::MadeProgress { .. } => e.segments@,
            worker::Response::Succeed { id, filepath } => e.segments@.update(
                id.worker_index as int,
                SegmentState::Succeeded { filepath },
            ),
            worker::Response::Failed { id, .. } => e.segments@.update(
                id.worker_index as int,
                SegmentState::Failed,
            ),
        }
    }
}

/// The phase of `e` after the worker report `resp`: the last success moves
/// it on to merging, nothing else changes it.
pub open spec fn phase_after(e: Entry, resp: worker::Response) -> EntryPhase {
    if e.accepts(resp.worker()) && resp is Succeed && all_succeeded(segments_after(e, resp)) {
        EntryPhase::Merging
    } else {
        e.phase
    }
}

/// What `e` passes on to the manager after the worker report `resp`.
pub open spec fn report_after(e: Entry, resp: worker::Response) -> Option<Response> {
    if !e.accepts(resp.worker()) {
        None
    } else {
        match resp {
            worker::Response::MadeProgress { id, received, length } => Some(
                Response::MadeProgress { id, received, length },
            ),
            worker::Response::Succeed { id, .. } => Some(Response::Succeed { id }),
            worker::Response::Failed { id, reason } => Some(Response::Failed { id, reason }),
        }
    }
}

/// The state of one entry, owned by its controller.
pub struct Entry {
    pub id: usize,
    /// Destination file name.
    pub name: String,
    pub phase: EntryPhase,
    /// Size of the resource in bytes, once known.
    pub total: usize,
    /// Inclusive byte range of each segment.
    pub ranges: Vec<(usize, usize)>,
    pub segments: Vec<SegmentState>,
}

impl Entry {
    pub open spec fn wf(&self) -> bool {
        &&& self.segments@.len() == self.ranges@.len()
        &&& self.phase is Sizing ==> self.segments@.len() == 0
        &&& forall|i: int|
            0 <= i < self.ranges@.len() ==> #[trigger] self.ranges@[i].0 <= self.ranges@[i].1
                < usize::MAX
        &&& (self.phase is Merging || self.phase is Succeeded) ==> all_succeeded(self.segments@)
    }

    pub open spec fn task(&self, i: int) -> SegmentTask {
        SegmentTask {
            id: WorkerId { entry_id: self.id, worker_index: i as usize },
            range: self.ranges@[i],
        }
    }

    /// A new entry for `name`, given what checking the URL gave: a URL that
    /// does not parse fails the entry at once.
    pub fn new(id: usize, name: String, url_check: Result<(), String>) -> (r: Result<
        Entry,
        Response,
    >)
        ensures
            url_check is Ok ==> (r matches Ok(e) && e.wf() && e.id == id && e.name == name
                && (e.phase is Sizing)),
            url_check is Err ==> r == Err::<Entry, Response>(
                Response::FailedGlobal { id: EntryId { entry_id: id }, reason: url_check->Err_0 },
            ),
    {
        match url_check {
            Ok(()) => Ok(
                Entry {
                    id,
                    name,
                    phase: EntryPhase::Sizing,
                    total: 0,
                    ranges: Vec::new(),
                    segments: Vec::new(),
                },
            ),
            Err(reason) => Err(Response::FailedGlobal { id: EntryId { entry_id: id }, reason }),
        }
    }

    /// Starts an entry that downloads `url` into `name`.
    pub fn start(id: usize, url: &str, name: String) -> (r: Result<Entry, Response>)
        ensures
            url_parses(url@) ==> (r matches Ok(e) && e.wf() && e.id == id && e.name == name
                && (e.phase is Sizing)),
            !url_parses(url@) ==> (r matches Err(Response::FailedGlobal { id: eid, .. })
                && eid == (EntryId { entry_id: id })),
    {
        Entry::new(id, name, check_url(url))
    }

    /// The size probe answered with `content_length`. A missing or zero
    /// length, or one beyond the address space, fails the entry as a whole
    /// and no segment is created. Otherwise the resource is split for `par`
    /// workers and one task per segment is handed out, with the report of
    /// the segment count.
    pub fn on_size(&mut self, content_length: Option<u64>, par: usize) -> (r: Result<
        (Vec<SegmentTask>, Response),
        Response,
    >)
        requires
            old(self).wf(),
            old(self).phase is Sizing,
            par >= 1,
        ensures
            final(self).wf(),
            final(self).id == old(self).id,
            final(self).name == old(self).name,
            (content_length is None || content_length == Some(0u64) || content_length->0
                > usize::MAX) ==> {
                &&& final(self).phase is Failed
                &&& final(self).segments@.len() == 0
                &&& r matches Err(Response::FailedGlobal { id, .. }) && id == (EntryId {
                    entry_id: old(self).id,
                })
            },
            (content_length matches Some(n) && 0 < n <= usize::MAX) ==> {
                let total = content_length->0 as nat;
                &&& final(self).phase is Active
                &&& final(self).total == total
                &&& final(self).segments@.len() == segment_count(total, par as nat)
                &&& forall|i: int|
                    0 <= i < final(self).segments@.len() ==> final(self).segments@[i] is Running
                        && final(self).ranges@[i].0 == range_start(total, par as nat, i)
                        && final(self).ranges@[i].1 == range_end(total, par as nat, i)
                &&& r matches Ok((tasks, report)) && tasks@.len() == final(self).segments@.len()
                    && (forall|i: int| 0 <= i < tasks@.len() ==> tasks@[i] == final(self).task(i))
                    && report == (Response::Sized {
                    id: EntryId { entry_id: old(self).id },
                    segments: tasks@.len() as usize,
                })
            },
    {
        let total: usize = match content_length {
            None => 0,
            Some(n) => if n > usize::MAX as u64 {
                0
            } else {
                n as usize
            },
        };
        if total == 0 {
            self.phase = EntryPhase::Failed;
            let reason = if content_length.is_none() || content_length == Some(0u64) {
                String::from_str("No Content-Length header")
            } else {
                String::from_str("Content-Length too large")
            };
            return Err(Response::FailedGlobal { id: EntryId { entry_id: self.id }, reason });
        }
        let ranges = calculate_ranges(total, par);
        proof {
            lemma_ranges_inside(total as nat, par as nat);
        }
        let mut segments: Vec<SegmentState> = Vec::new();
        let mut tasks: Vec<SegmentTask> = Vec::new();
        let mut i: usize = 0;
        while i < ranges.len()
            invariant
                i <= ranges@.len(),
                segments@.len() == i,
                tasks@.len() == i,
                ranges@.len() == segment_count(total as nat, par as nat),
                forall|j: int|
                    0 <= j < ranges@.len() ==> ranges@[j].0 == range_start(
                        total as nat,
                        par as nat,
                        j,
                    ) && ranges@[j].1 == range_end(total as nat, par as nat, j),
                forall|j: int| 0 <= j < i ==> segments@[j] is Running,
                forall|j: int|
                    0 <= j < i ==> tasks@[j] == (SegmentTask {
                        id: WorkerId { entry_id: self.id, worker_index: j as usize },
                        range: ranges@[j],
                    }),
            decreases ranges@.len() - i,
        {
            segments.push(SegmentState::Running);
            tasks.push(SegmentTask { id: WorkerId { entry_id: self.id, worker_index: i }, range: ranges[i] });
            i = i + 1;
        }
        assert forall|j: int| 0 <= j < ranges@.len() implies #[trigger] ranges@[j].0 <= ranges@[j].1
            < usize::MAX by {
            assert(range_start(total as nat, par as nat, j) <= range_end(total as nat, par as nat, j));
        }
        self.total = total;
        self.ranges = ranges;
        self.segments = segments;
        self.phase = EntryPhase::Active;
        let n = tasks.len();
        Ok((tasks, Response::Sized { id: EntryId { entry_id: self.id }, segments: n }))
    }

    /// The size probe itself failed: the entry fails as a whole with
    /// `reason` and no segment is created.
    pub fn on_probe_failed(&mut self, reason: String) -> (r: Response)
        requires
            old(self).wf(),
            old(self).phase is Sizing,
        ensures
            final(self).wf(),
            final(self).id == old(self).id,
            final(self).segments == old(self).segments,
            final(self).phase is Failed,
            r == (Response::FailedGlobal { id: EntryId { entry_id: old(self).id }, reason }),
    {
        self.phase = EntryPhase::Failed;
        Response::FailedGlobal { id: EntryId { entry_id: self.id }, reason }
    }

    /// Whether some segment is still running.
    pub fn any_running(&self) -> (r: bool)
        ensures
            r == exists|i: int| 0 <= i < self.segments@.len() && #[trigger] self.segments@[i] is Running,
    {
        let mut i: usize = 0;
        while i < self.segments.len()
            invariant
                i <= self.segments@.len(),
                forall|j: int| 0 <= j < i ==> !(#[trigger] self.segments@[j] is Running),
            decreases self.segments@.len() - i,
        {
            match &self.segments[i] {
                SegmentState::Running => {
                    return true;
                },
                _ => {},
            }
            i = i + 1;
        }
        false
    }

    /// Whether a report from worker `w` is taken: it must belong to this
    /// entry, name one of its segments, and that segment must be running.
    pub open spec fn accepts(&self, w: WorkerId) -> bool {
        &&& w.entry_id == self.id
        &&& w.worker_index < self.segments@.len()
        &&& self.phase is Active
        &&& self.segments@[w.worker_index as int] is Running
    }

    fn accepts_exec(&self, w: &WorkerId) -> (r: bool)
        ensures
            r == self.accepts(*w),
    {
        if w.entry_id != self.id || w.worker_index >= self.segments.len() || self.phase
            != EntryPhase::Active {
            return false;
        }
        match &self.segments[w.worker_index] {
            SegmentState::Running => true,
            _ => false,
        }
    }

    fn all_segments_succeeded(&self) -> (r: bool)
        ensures
            r == all_succeeded(self.segments@),
    {
        let mut i: usize = 0;
        while i < self.segments.len()
            invariant
                i <= self.segments@.len(),
                forall|j: int| 0 <= j < i ==> self.segments@[j] is Succeeded,
            decreases self.segments@.len() - i,
        {
            match &self.segments[i] {
                SegmentState::Succeeded { .. } => {},
                _ => {
                    return false;
                },
            }
            i = i + 1;
        }
        true
    }

    /// A report from one of the workers. Progress is passed on. A success
    /// records the segment's file; once every segment has succeeded the
    /// entry moves on to merging. A failure marks that segment alone: the
    /// others go on running. Reports that are not taken change nothing.
    pub fn on_worker(&mut self, resp: worker::Response) -> (r: Option<Response>)
        requires
            old(self).wf(),
        ensures
            final(self).wf(),
            final(self).id == old(self).id,
            final(self).name == old(self).name,
            final(self).total == old(self).total,
            final(self).ranges == old(self).ranges,
            final(self).segments@ == segments_after(*old(self), resp),
            final(self).phase == phase_after(*old(self), resp),
            r == report_after(*old(self), resp),
            !old(self).accepts(resp.worker()) ==> *final(self) == *old(self),
            resp is MadeProgress ==> *final(self) == *old(self),
    {
        match resp {
            worker::Response::MadeProgress { id, received, length } => {
                if !self.accepts_exec(&id) {
                    return None;
                }
                Some(Response::MadeProgress { id, received, length })
            },
            worker::Response::Succeed { id, filepath } => {
                if !self.accepts_exec(&id) {
                    return None;
                }
                self.segments[id.worker_index] = SegmentState::Succeeded { filepath };
                if self.all_segments_succeeded() {
                    self.phase = EntryPhase::Merging;
                }
                Some(Response::Succeed { id })
            },
            worker::Response::Failed { id, reason } => {
                if !self.accepts_exec(&id) {
                    return None;
                }
                self.segments[id.worker_index] = SegmentState::Failed;
                Some(Response::Failed { id, reason })
            },
        }
    }

    /// The files to join into the destination, in segment order. Which
    /// segment finished first plays no part.
    pub fn merge_plan(&self) -> (r: Vec<String>)
        requires
            self.wf(),
            self.phase is Merging,
        ensures
            r@.len() == self.segments@.len(),
            forall|i: int| 0 <= i < r@.len() ==> r@[i]@ == merge_paths(self.segments@)[i],
    {
        let mut r: Vec<String> = Vec::new();
        let mut i: usize = 0;
        while i < self.segments.len()
            invariant
                all_succeeded(self.segments@),
                i <= self.segments@.len(),
                r@.len() == i,
                forall|j: int| 0 <= j < i ==> r@[j]@ == merge_paths(self.segments@)[j],
            decreases self.segments@.len() - i,
        {
            match &self.segments[i] {
                SegmentState::Succeeded { filepath } => r.push(filepath.clone()),
                _ => {},
            }
            i = i + 1;
        }
        r
    }

    /// The merge ended: with success the entry is done, with an error it
    /// fails as a whole.
    pub fn on_merged(&mut self, outcome: Result<(), String>) -> (r: Response)
        requires
            old(self).wf(),
            old(self).phase is Merging,
        ensures
            final(self).wf(),
            final(self).id == old(self).id,
            final(self).segments == old(self).segments,
            outcome is Ok ==> (final(self).phase is Succeeded) && r == (Response::SucceedGlobal {
                id: EntryId { entry_id: old(self).id },
            }),
            outcome is Err ==> (final(self).phase is Failed) && r == (Response::FailedGlobal {
                id: EntryId { entry_id: old(self).id },
                reason: outcome->Err_0,
            }),
    {
        match outcome {
            Ok(()) => {
                self.phase = EntryPhase::Succeeded;
                Response::SucceedGlobal { id: EntryId { entry_id: self.id } }
            },
            Err(reason) => {
                self.phase = EntryPhase::Failed;
                Response::FailedGlobal { id: EntryId { entry_id: self.id }, reason }
            },
        }
    }

    /// Deletes the entry. Workers still running are to be cancelled; files
    /// of segments that succeeded are to be removed, unless the merge
    /// already consumed them.
    pub fn delete(&mut self) -> (r: DeletePlan)
        requires
            old(self).wf(),
        ensures
            final(self).wf(),
            final(self).phase is Deleted,
            final(self).id == old(self).id,
            final(self).segments == old(self).segments,
            final(self).ranges == old(self).ranges,
            r.cancel@ == indices_in(old(self).segments@, true).map_values(
                |i: int| WorkerId { entry_id: old(self).id, worker_index: i as usize },
            ),
            r.remove@.map_values(|p: String| p@) == (if old(self).phase is Succeeded {
                Seq::<Seq<char>>::empty()
            } else {
                succeeded_paths(old(self).segments@)
            }),
    {
        let ghost segs = self.segments@;
        let mut cancel: Vec<WorkerId> = Vec::new();
        let mut remove: Vec<String> = Vec::new();
        let merged = self.phase == EntryPhase::Succeeded;
        let mut i: usize = 0;
        while i < self.segments.len()
            invariant
                segs == self.segments@,
                i <= segs.len(),
                cancel@ == indices_in(segs.take(i as int), true).map_values(
                    |k: int| WorkerId { entry_id: self.id, worker_index: k as usize },
                ),
                remove@.map_values(|p: String| p@) == (if merged {
                    Seq::<Seq<char>>::empty()
                } else {
                    succeeded_paths(segs.take(i as int))
                }),
            decreases segs.len() - i,
        {
            assert(segs.take(i + 1).drop_last() =~= segs.take(i as int));
            assert(segs.take(i + 1).last() == segs[i as int]);
            match &self.segments[i] {
                SegmentState::Running => {
                    cancel.push(WorkerId { entry_id: self.id, worker_index: i });
                },
                SegmentState::Succeeded { filepath } => {
                    if !merged {
                        remove.push(filepath.clone());
                    }
                },
                SegmentState::Failed => {},
            }
            assert(cancel@ =~= indices_in(segs.take(i + 1), true).map_values(
                |k: int| WorkerId { entry_id: self.id, worker_index: k as usize },
            ));
            assert(remove@.map_values(|p: String| p@) =~= (if merged {
                Seq::<Seq<char>>::empty()
            } else {
                succeeded_paths(segs.take(i + 1))
            }));
            i = i + 1;
        }
        assert(segs.take(segs.len() as int) =~= segs);
        self.phase = EntryPhase::Deleted;
        DeletePlan { cancel, remove }
    }

    /// Runs the failed segments again, each as a new task. Segments that
    /// succeeded keep their files and are not fetched again. Only an active
    /// entry restarts.
    pub fn restart(&mut self) -> (r: Vec<SegmentTask>)
        requires
            old(self).wf(),
        ensures
            final(self).wf(),
            final(self).id == old(self).id,
            final(self).name == old(self).name,
            final(self).total == old(self).total,
            final(self).ranges == old(self).ranges,
            !(old(self).phase is Active) ==> (*final(self) == *old(self) && r@.len() == 0),
            old(self).phase is Active ==> ((final(self).phase is Active) && final(self).segments@
                == restarted(old(self).segments@) && r@.len() == indices_in(
                old(self).segments@,
                false,
            ).len() && forall|k: int|
                0 <= k < r@.len() ==> r@[k] == old(self).task(
                    indices_in(old(self).segments@, false)[k],
                )),
    {
        let mut tasks: Vec<SegmentTask> = Vec::new();
        if self.phase != EntryPhase::Active {
            return tasks;
        }
        let ghost segs = self.segments@;
        let mut i: usize = 0;
        while i < self.segments.len()
            invariant
                self.wf(),
                self.phase is Active,
                self.segments@.len() == segs.len(),
                self.id == old(self).id,
                self.name == old(self).name,
                self.total == old(self).total,
                self.ranges == old(self).ranges,
                segs == old(self).segments@,
                i <= segs.len(),
                forall|j: int| 0 <= j < i ==> self.segments@[j] == restarted(segs)[j],
                forall|j: int| i <= j < segs.len() ==> self.segments@[j] == segs[j],
                tasks@.len() == indices_in(segs.take(i as int), false).len(),
                forall|k: int|
                    0 <= k < tasks@.len() ==> tasks@[k] == old(self).task(
                        indices_in(segs.take(i as int), false)[k],
                    ),
            decreases segs.len() - i,
        {
            assert(segs.take(i + 1).drop_last() =~= segs.take(i as int));
            assert(segs.take(i + 1).last() == segs[i as int]);
            let failed = match &self.segments[i] {
                SegmentState::Failed => true,
                _ => false,
            };
            if failed {
                self.segments[i] = SegmentState::Running;
                tasks.push(SegmentTask { id: WorkerId { entry_id: self.id, worker_index: i }, range: self.ranges[i] });
            }
            i = i + 1;
        }
        assert(segs.take(segs.len() as int) =~= segs);
        assert(self.segments@ =~= restarted(segs));
        tasks
    }
}

/// Whatever order the success reports arrive in, each segment ends up
/// holding the file reported for its own index, so the merge, which goes by
/// index, joins the files in segment order.
pub proof fn lemma_merge_follows_index(segs: Seq<SegmentState>, events: Seq<(int, String)>)
    requires
        forall|k: int| 0 <= k < events.len() ==> 0 <= #[trigger] events[k].0 < segs.len(),
        forall|k: int, l: int|
            0 <= k < l < events.len() ==> #[trigger] events[k].0 != #[trigger] events[l].0,
    ensures
        apply_successes(segs, events).len() == segs.len(),
        forall|k: int|
            0 <= k < events.len() ==> apply_successes(segs, events)[#[trigger] events[k].0] == (
            SegmentState::Succeeded { filepath: events[k].1 }),
        forall|k: int|
            0 <= k < events.len() ==> merge_paths(apply_successes(segs, events))[
                #[trigger] events[k].0] == events[k].1@,
    decreases events.len(),
{
    if events.len() > 0 {
        let rest = events.drop_last();
        lemma_merge_follows_index(segs, rest);
        assert forall|k: int| 0 <= k < events.len() implies apply_successes(segs, events)[
            #[trigger] events[k].0] == (SegmentState::Succeeded { filepath: events[k].1 }) by {
            if k < events.len() - 1 {
                assert(rest[k] == events[k]);
            }
        }
    }
}

proof fn lemma_apply_untouched(segs: Seq<SegmentState>, events: Seq<(int, String)>, i: int)
    requires
        0 <= i < segs.len(),
        forall|k: int| 0 <= k < events.len() ==> 0 <= #[trigger] events[k].0 < segs.len(),
        forall|k: int| 0 <= k < events.len() ==> #[trigger] events[k].0 != i,
    ensures
        apply_successes(segs, events).len() == segs.len(),
        apply_successes(segs, events)[i] == segs[i],
    decreases events.len(),
{
    if events.len() > 0 {
        let rest = events.drop_last();
        assert forall|k: int| 0 <= k < rest.len() implies #[trigger] rest[k].0 != i && 0 <= rest[k].0
            < segs.len() by {
            assert(rest[k] == events[k]);
        }
        lemma_apply_untouched(segs, rest, i);
        assert(events.last() == events[events.len() - 1]);
    }
}

/// Two runs whose segments report the same successes in different orders
/// end with the same segments, so the same files are joined in the same
/// order: completion order never changes the merged output.
pub proof fn lemma_completion_order_irrelevant(
    segs: Seq<SegmentState>,
    first: Seq<(int, String)>,
    second: Seq<(int, String)>,
)
    requires
        forall|k: int| 0 <= k < first.len() ==> 0 <= #[trigger] first[k].0 < segs.len(),
        forall|k: int, l: int|
            0 <= k < l < first.len() ==> #[trigger] first[k].0 != #[trigger] first[l].0,
        forall|k: int| 0 <= k < second.len() ==> 0 <= #[trigger] second[k].0 < segs.len(),
        forall|k: int, l: int|
            0 <= k < l < second.len() ==> #[trigger] second[k].0 != #[trigger] second[l].0,
        forall|k: int| 0 <= k < first.len() ==> second.contains(#[trigger] first[k]),
        forall|k: int| 0 <= k < second.len() ==> first.contains(#[trigger] second[k]),
    ensures
        apply_successes(segs, first) == apply_successes(segs, second),
        merge_paths(apply_successes(segs, first)) == merge_paths(apply_successes(segs, second)),
{
    lemma_merge_follows_index(segs, first);
    lemma_merge_follows_index(segs, second);
    let (a, b) = (apply_successes(segs, first), apply_successes(segs, second));
    assert forall|i: int| 0 <= i < segs.len() implies a[i] == b[i] by {
        if exists|k: int| 0 <= k < first.len() && #[trigger] first[k].0 == i {
            let k = choose|k: int| 0 <= k < first.len() && #[trigger] first[k].0 == i;
            assert(second.contains(first[k]));
            let l = choose|l: int| 0 <= l < second.len() && second[l] == first[k];
            assert(second[l].0 == i);
        } else if exists|l: int| 0 <= l < second.len() && #[trigger] second[l].0 == i {
            let l = choose|l: int| 0 <= l < second.len() && #[trigger] second[l].0 == i;
            assert(first.contains(second[l]));
            let k = choose|k: int| 0 <= k < first.len() && first[k] == second[l];
            assert(first[k].0 == i);
        } else {
            lemma_apply_untouched(segs, first, i);
            lemma_apply_untouched(segs, second, i);
        }
    }
    assert(a =~= b);
}

/// An entry with a failed segment is neither merging nor succeeded.
pub proof fn lemma_failed_segment_blocks_success(e: Entry, i: int)
    requires
        e.wf(),
        0 <= i < e.segments@.len(),
        e.segments@[i] is Failed,
    ensures
        !(e.phase is Merging),
        !(e.phase is Succeeded),
{
}

proof fn lemma_succeeded_path_listed(segs: Seq<SegmentState>, i: int)
    requires
        0 <= i < segs.len(),
        segs[i] is Succeeded,
    ensures
        succeeded_paths(segs).contains(segs[i]->filepath@),
    decreases segs.len(),
{
    if i < segs.len() - 1 {
        lemma_succeeded_path_listed(segs.drop_last(), i);
        let rest = succeeded_paths(segs.drop_last());
        let k = choose|k: int| 0 <= k < rest.len() && rest[k] == segs[i]->filepath@;
        assert(succeeded_paths(segs)[k] == rest[k]);
    } else {
        assert(succeeded_paths(segs).last() == segs[i]->filepath@);
    }
}

proof fn lemma_index_listed(segs: Seq<SegmentState>, running: bool, i: int)
    requires
        0 <= i < segs.len(),
        (running && segs[i] is Running) || (!running && segs[i] is Failed),
    ensures
        indices_in(segs, running).contains(i),
    decreases segs.len(),
{
    if i < segs.len() - 1 {
        lemma_index_listed(segs.drop_last(), running, i);
        let rest = indices_in(segs.drop_last(), running);
        let k = choose|k: int| 0 <= k < rest.len() && rest[k] == i;
        assert(indices_in(segs, running)[k] == rest[k]);
    } else {
        assert(indices_in(segs, running).last() == i);
    }
}

proof fn lemma_listed_index(segs: Seq<SegmentState>, running: bool, k: int)
    requires
        0 <= k < indices_in(segs, running).len(),
    ensures
        0 <= indices_in(segs, running)[k] < segs.len(),
        running ==> segs[indices_in(segs, running)[k]] is Running,
        !running ==> segs[indices_in(segs, running)[k]] is Failed,
    decreases segs.len(),
{
    let rest = indices_in(segs.drop_last(), running);
    if k < rest.len() {
        lemma_listed_index(segs.drop_last(), running, k);
        assert(indices_in(segs, running)[k] == rest[k]);
    }
}

/// Deleting an entry leaves no temporary file behind: every running
/// segment is cancelled (and removes its own file), and the file of every
/// segment that succeeded but was not merged is removed.
pub proof fn lemma_delete_covers_all_files(segs: Seq<SegmentState>)
    ensures
        forall|i: int|
            0 <= i < segs.len() && #[trigger] segs[i] is Running ==> indices_in(segs, true).contains(
                i,
            ),
        forall|i: int|
            0 <= i < segs.len() && #[trigger] segs[i] is Succeeded ==> succeeded_paths(
                segs,
            ).contains(segs[i]->filepath@),
{
    assert forall|i: int|
        0 <= i < segs.len() && #[trigger] segs[i] is Running implies indices_in(
        segs,
        true,
    ).contains(i) by {
        lemma_index_listed(segs, true, i);
    }
    assert forall|i: int|
        0 <= i < segs.len() && #[trigger] segs[i] is Succeeded implies succeeded_paths(
        segs,
    ).contains(segs[i]->filepath@) by {
        lemma_succeeded_path_listed(segs, i);
    }
}

/// A restart runs again exactly the failed segments: a segment that
/// succeeded keeps its state and file and gets no new task.
pub proof fn lemma_restart_keeps_successes(segs: Seq<SegmentState>)
    ensures
        restarted(segs).len() == segs.len(),
        forall|i: int|
            0 <= i < segs.len() && #[trigger] segs[i] is Succeeded ==> restarted(segs)[i]
                == segs[i] && !indices_in(segs, false).contains(i),
        forall|i: int|
            0 <= i < segs.len() && #[trigger] segs[i] is Failed ==> indices_in(segs, false).contains(
                i,
            ),
{
    assert forall|i: int|
        0 <= i < segs.len() && #[trigger] segs[i] is Succeeded implies restarted(segs)[i]
        == segs[i] && !indices_in(segs, false).contains(i) by {
        if indices_in(segs, false).contains(i) {
            let k = choose|k: int|
                0 <= k < indices_in(segs, false).len() && indices_in(segs, false)[k] == i;
            lemma_listed_index(segs, false, k);
        }
    }
    assert forall|i: int|
        0 <= i < segs.len() && #[trigger] segs[i] is Failed implies indices_in(
        segs,
        false,
    ).contains(i) by {
        lemma_index_listed(segs, false, i);
    }
}

} // verus!
