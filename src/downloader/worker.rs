//! One segment worker: fetches one byte range of a resource into a private
//! temporary file. The caller performs the file and network work; this type
//! decides what each outcome means and what is reported.

use vstd::prelude::*;
use vstd::string::StringExecFns;
use crate::text::{decimal, push_decimal};

verus! {

/// Identity of a segment: its entry and its index within that entry. The
/// index fixes the segment's place in the merged file.
#[derive(Clone, Copy, Debug, PartialEq, Eq, Structural)]
pub struct WorkerId {
    pub entry_id: usize,
    pub worker_index: usize,
}

/// What a worker reports to its entry.
pub enum Response {
    /// `received` of the segment's `length` bytes are in its file.
    MadeProgress { id: WorkerId, received: usize, length: usize },
    /// The whole range is in the file at `filepath`.
    Succeed { id: WorkerId, filepath: String },
    /// The segment failed; its file has been removed.
    Failed { id: WorkerId, reason: String },
}

impl Response {
    pub open spec fn worker(&self) -> WorkerId {
        match self {
            Response::MadeProgress { id, .. } => *id,
            Response::Succeed { id, .. } => *id,
            Response::Failed { id, .. } => *id,
        }
    }
}

/// Where a worker stands.
#[derive(Clone, Copy, Debug, PartialEq, Eq, Structural)]
pub enum WorkerPhase {
    /// Its temporary file is not created yet.
    Pending,
    /// The file exists and the range request is out.
    Requesting,
    /// The response body is being written to the file.
    Streaming,
    Succeeded,
    Failed,
    Cancelled,
}

/// The name of temporary file number `attempt` for a segment; entry id and
/// segment index can be read back from it.
pub open spec fn temp_name(id: WorkerId, attempt: nat) -> Seq<char> {
    "worker-"@ + decimal(id.entry_id as nat) + "-"@ + decimal(id.worker_index as nat) + "-"@
        + decimal(attempt) + ".bin"@
}

/// The value of the range header that asks for the inclusive bytes
/// `start` to `end`.
pub open spec fn range_header_value(start: nat, end: nat) -> Seq<char> {
    "bytes="@ + decimal(start) + "-"@ + decimal(end)
}

/// The name of temporary file number `attempt` for segment `id`. A caller
/// that finds the name taken tries the next attempt.
pub fn file_name(id: &WorkerId, attempt: usize) -> (r: String)
    ensures
        r@ == temp_name(*id, attempt as nat),
{
    let mut s = String::new();
    s.append("worker-");
    push_decimal(&mut s, id.entry_id);
    s.append("-");
    push_decimal(&mut s, id.worker_index);
    s.append("-");
    push_decimal(&mut s, attempt);
    s.append(".bin");
    assert(s@ =~= temp_name(*id, attempt as nat));
    s
}

/// The state of one segment worker.
pub struct Worker {
    pub id: WorkerId,
    /// Inclusive byte range of the segment.
    pub range: (usize, usize),
    pub phase: WorkerPhase,
    /// Bytes written to the file so far.
    pub received: usize,
    /// The temporary file, once created.
    pub filepath: Option<String>,
}

impl Worker {
    /// Length of the segment's range, bounds included.
    pub open spec fn spec_length(&self) -> nat {
        (self.range.1 - self.range.0 + 1) as nat
    }

    pub open spec fn wf(&self) -> bool {
        &&& self.range.0 <= self.range.1 < usize::MAX
        &&& self.phase is Pending ==> self.filepath is None
        &&& (self.phase is Requesting || self.phase is Streaming || self.phase is Succeeded)
            ==> self.filepath is Some
    }

    /// Whether the worker has stopped for good.
    pub open spec fn finished(&self) -> bool {
        self.phase is Succeeded || self.phase is Failed || self.phase is Cancelled
    }

    /// A worker for segment `id` covering the inclusive `range`.
    pub fn new(id: WorkerId, range: (usize, usize)) -> (w: Worker)
        requires
            range.0 <= range.1 < usize::MAX,
        ensures
            w.wf(),
            w.id == id,
            w.range == range,
            w.phase is Pending,
            w.received == 0,
    {
        Worker { id, range, phase: WorkerPhase::Pending, received: 0, filepath: None }
    }

    /// The range header for this segment's request.
    pub fn range_header(&self) -> (r: String)
        ensures
            r@ == range_header_value(self.range.0 as nat, self.range.1 as nat),
    {
        let mut s = String::new();
        s.append("bytes=");
        push_decimal(&mut s, self.range.0);
        s.append("-");
        push_decimal(&mut s, self.range.1);
        assert(s@ =~= range_header_value(self.range.0 as nat, self.range.1 as nat));
        s
    }

    /// Length of the range, bounds included.
    pub fn length(&self) -> (r: usize)
        requires
            self.wf(),
        ensures
            r == self.spec_length(),
    {
        self.range.1 - self.range.0 + 1
    }

    /// The temporary file was created at `filepath` and the request is sent.
    pub fn on_file_created(&mut self, filepath: String)
        requires
            old(self).wf(),
            old(self).phase is Pending,
        ensures
            final(self).wf(),
            final(self).phase is Requesting,
            final(self).filepath == Some(filepath),
            final(self).id == old(self).id,
            final(self).range == old(self).range,
            final(self).received == old(self).received,
    {
        self.filepath = Some(filepath);
        self.phase = WorkerPhase::Requesting;
    }

    /// The server answered; its body follows.
    pub fn on_response(&mut self)
        requires
            old(self).wf(),
            old(self).phase is Requesting,
        ensures
            final(self).wf(),
            final(self).phase is Streaming,
            final(self).filepath == old(self).filepath,
            final(self).id == old(self).id,
            final(self).range == old(self).range,
            final(self).received == old(self).received,
    {
        self.phase = WorkerPhase::Streaming;
    }

    /// A chunk of `len` bytes was written to the file. The progress
    /// reported counts the bytes received so far, never more than the
    /// range's length.
    pub fn on_chunk(&mut self, len: usize) -> (r: Response)
        requires
            old(self).wf(),
            old(self).phase is Streaming,
        ensures
            final(self).wf(),
            final(self).phase is Streaming,
            final(self).filepath == old(self).filepath,
            final(self).id == old(self).id,
            final(self).range == old(self).range,
            final(self).received == if old(self).received + len > usize::MAX {
                usize::MAX as int
            } else {
                old(self).received + len
            },
            r == (Response::MadeProgress {
                id: old(self).id,
                received: if final(self).received > old(self).spec_length() {
                    old(self).spec_length() as usize
                } else {
                    final(self).received
                },
                length: old(self).spec_length() as usize,
            }),
    {
        self.received = self.received.saturating_add(len);
        let length = self.length();
        let shown = if self.received > length {
            length
        } else {
            self.received
        };
        Response::MadeProgress { id: self.id, received: shown, length }
    }

    /// The body ended and the file is flushed: the segment succeeded and its
    /// file is handed on.
    pub fn on_finished(&mut self) -> (r: Response)
        requires
            old(self).wf(),
            old(self).phase is Streaming,
        ensures
            final(self).wf(),
            final(self).phase is Succeeded,
            final(self).filepath == old(self).filepath,
            final(self).id == old(self).id,
            final(self).range == old(self).range,
            r == (Response::Succeed { id: old(self).id, filepath: old(self).filepath->0 }),
    {
        self.phase = WorkerPhase::Succeeded;
        match &self.filepath {
            Some(p) => Response::Succeed { id: self.id, filepath: p.clone() },
            None => Response::Succeed { id: self.id, filepath: String::new() },
        }
    }

    /// Creating the file, the request, a read, a write or the flush failed.
    /// The segment fails with `reason`; the result names the file to remove,
    /// if one was created. A worker that had already stopped is left as it
    /// is and reports nothing.
    pub fn on_error(&mut self, reason: String) -> (r: (Option<Response>, Option<String>))
        requires
            old(self).wf(),
        ensures
            final(self).wf(),
            final(self).id == old(self).id,
            final(self).range == old(self).range,
            final(self).filepath == old(self).filepath,
            old(self).finished() ==> *final(self) == *old(self) && r == (
            None::<Response>,
            None::<String>,
            ),
            !old(self).finished() ==> final(self).phase is Failed && r == (
            Some(Response::Failed { id: old(self).id, reason }),
            old(self).filepath,
            ),
    {
        if self.phase == WorkerPhase::Succeeded || self.phase == WorkerPhase::Failed || self.phase
            == WorkerPhase::Cancelled {
            return (None, None);
        }
        if self.phase == WorkerPhase::Pending {
            self.phase = WorkerPhase::Failed;
            return (Some(Response::Failed { id: self.id, reason }), None);
        }
        self.phase = WorkerPhase::Failed;
        let f = self.filepath.clone();
        (Some(Response::Failed { id: self.id, reason }), f)
    }

    /// The entry was deleted: the worker stops without reporting and the
    /// result names its file to remove. A worker that had already stopped
    /// keeps its phase; its file, if it succeeded, belongs to the entry.
    pub fn on_cancel(&mut self) -> (r: Option<String>)
        requires
            old(self).wf(),
        ensures
            final(self).wf(),
            final(self).id == old(self).id,
            final(self).range == old(self).range,
            final(self).filepath == old(self).filepath,
            old(self).finished() ==> *final(self) == *old(self) && r is None,
            !old(self).finished() ==> final(self).phase is Cancelled && r == old(self).filepath,
    {
        if self.phase == WorkerPhase::Succeeded || self.phase == WorkerPhase::Failed || self.phase
            == WorkerPhase::Cancelled {
            return None;
        }
        let f = self.filepath.clone();
        self.phase = WorkerPhase::Cancelled;
        f
    }
}

} // verus!
