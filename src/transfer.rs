use vstd::prelude::*;

use crate::state::{lemma_cancelling_ends_cancelled, next_state, Event, OperationState};
use crate::progress::{
    bytes_of, count_of, failure_views, failures_of, is_cancel, is_skip, is_success, ItemOutcome, Summary,
};

verus! {

/// The copy of one file in chunks: the source's size, the bytes already
/// written to the destination, and the largest chunk to write at once.
#[derive(Clone, Copy, Debug, PartialEq, Eq, Structural)]
pub struct FileCopy {
    pub size: u64,
    pub written: u64,
    pub chunk: u64,
}

/// What the worker copying a file does next.
#[derive(Clone, Copy, Debug, PartialEq, Eq, Structural)]
pub enum CopyAction {
    /// Write `len` bytes of the source at `offset` to the destination.
    WriteChunk { offset: u64, len: u64 },
    /// All bytes are written: flush, set permissions and times, report done.
    Finalize,
    /// Cancelled: remove the partly written destination, report cancelled.
    RemovePartial,
}

/// The action that follows in `job`, with `cancelled` the state of the
/// cancel token as read between chunks.
pub open spec fn copy_action_of(job: FileCopy, cancelled: bool) -> CopyAction {
    if cancelled {
        CopyAction::RemovePartial
    } else if job.written < job.size {
        let rest = (job.size - job.written) as u64;
        CopyAction::WriteChunk {
            offset: job.written,
            len: if rest < job.chunk {
                rest
            } else {
                job.chunk
            },
        }
    } else {
        CopyAction::Finalize
    }
}

impl FileCopy {
    /// Never more written than the source holds; chunks are not empty.
    pub open spec fn wf(&self) -> bool {
        self.written <= self.size && self.chunk > 0
    }

    /// The copy of a file of `size` bytes in chunks of at most `chunk` bytes,
    /// nothing written yet.
    pub fn new(size: u64, chunk: u64) -> (r: FileCopy)
        requires
            chunk > 0,
        ensures
            r.wf(),
            r.size == size,
            r.written == 0,
            r.chunk == chunk,
    {
        FileCopy { size, written: 0, chunk }
    }

    /// What to do next. A cancel seen between chunks always removes the
    /// partial destination: a file is finalized, and so reported complete,
    /// only when every byte of the source was written and no cancel was seen.
    pub fn next_action(&self, cancelled: bool) -> (r: CopyAction)
        requires
            self.wf(),
        ensures
            r == copy_action_of(*self, cancelled),
            r is Finalize ==> !cancelled && self.written == self.size,
            cancelled ==> r is RemovePartial,
            r matches CopyAction::WriteChunk { offset, len } ==> offset == self.written && 0 < len
                <= self.chunk && offset + len <= self.size,
    {
        if cancelled {
            CopyAction::RemovePartial
        } else if self.written < self.size {
            let rest = self.size - self.written;
            let len = if rest < self.chunk {
                rest
            } else {
                self.chunk
            };
            CopyAction::WriteChunk { offset: self.written, len }
        } else {
            CopyAction::Finalize
        }
    }

    /// Counts a chunk of `len` bytes as written.
    pub fn chunk_written(&mut self, len: u64)
        requires
            old(self).wf(),
            len <= old(self).size - old(self).written,
        ensures
            final(self).wf(),
            final(self).written == old(self).written + len,
            final(self).size == old(self).size,
            final(self).chunk == old(self).chunk,
    {
        self.written = self.written + len;
    }
}

/// How a file copy ended, once it has: `Succeeded` with the source's size
/// after it was finalized, `Cancelled` after its partial output was removed.
pub open spec fn copy_outcome_of(job: FileCopy, cancelled: bool) -> Option<ItemOutcome> {
    match copy_action_of(job, cancelled) {
        CopyAction::Finalize => Some(ItemOutcome::Succeeded(job.size)),
        CopyAction::RemovePartial => Some(ItemOutcome::Cancelled),
        CopyAction::WriteChunk { .. } => None,
    }
}

impl FileCopy {
    /// The outcome to record for this file where the copy has ended: `None`
    /// while chunks remain to be written.
    pub fn outcome(&self, cancelled: bool) -> (r: Option<ItemOutcome>)
        requires
            self.wf(),
        ensures
            r == copy_outcome_of(*self, cancelled),
    {
        match self.next_action(cancelled) {
            CopyAction::Finalize => Some(ItemOutcome::Succeeded(self.size)),
            CopyAction::RemovePartial => Some(ItemOutcome::Cancelled),
            CopyAction::WriteChunk { .. } => None,
        }
    }
}

/// A copy that sees a cancel after any partial progress removes the partial
/// file and records it as cancelled, never as succeeded or complete; the
/// operation around it, once cancelling, can only end as Cancelled.
pub proof fn lemma_cancel_leaves_nothing_complete(job: FileCopy, event: Event)
    requires
        job.wf(),
    ensures
        copy_action_of(job, true) == CopyAction::RemovePartial,
        copy_outcome_of(job, true) == Some(ItemOutcome::Cancelled),
        !is_success(ItemOutcome::Cancelled),
        next_state(OperationState::Cancelling, event) matches Some(t) ==> t
            == OperationState::Cancelled,
{
    lemma_cancelling_ends_cancelled(event);
}

/// Following the actions of an uncancelled copy writes every byte once, in
/// order: after a written chunk the next one starts where it ended, and the
/// copy is finalized exactly when the written bytes reach the source's size.
pub proof fn lemma_copy_progress(job: FileCopy)
    requires
        job.wf(),
    ensures
        copy_action_of(job, false) matches CopyAction::WriteChunk { offset, len } ==> {
            let next = FileCopy { written: (job.written + len) as u64, ..job };
            &&& next.wf()
            &&& next.written > job.written
            &&& (copy_action_of(next, false) matches CopyAction::WriteChunk { offset: o2, len: _ }
                ==> o2 == offset + len)
        },
        copy_action_of(job, false) is Finalize <==> job.written == job.size,
{
}

/// How a move goes.
#[derive(Clone, Copy, Debug, PartialEq, Eq, Structural)]
pub enum MoveStrategy {
    /// One atomic rename on the same volume.
    Rename,
    /// Copy to the other volume, then remove the source once the copy is sound.
    CopyThenDelete,
}

/// A move on one volume is a rename; across volumes it is a copy followed
/// by removing the source.
pub fn move_strategy(source_volume: u64, destination_volume: u64) -> (r: MoveStrategy)
    ensures
        r == (if source_volume == destination_volume {
            MoveStrategy::Rename
        } else {
            MoveStrategy::CopyThenDelete
        }),
{
    if source_volume == destination_volume {
        MoveStrategy::Rename
    } else {
        MoveStrategy::CopyThenDelete
    }
}

/// After the copy step of a move across volumes: the source may be removed
/// only when the destination was flushed and holds as many bytes as the
/// source.
pub fn may_remove_source(source_size: u64, destination_size: u64, flushed: bool) -> (r: bool)
    ensures
        r == (flushed && destination_size == source_size),
{
    flushed && destination_size == source_size
}

/// Adds up the sizes of the files that a walk of the sources found, for the
/// operation's totals; `None` where the sum does not fit in `u64`.
pub fn walk_totals(sizes: &Vec<u64>) -> (r: Option<u64>)
    ensures
        r matches Some(t) ==> t == total_size(sizes@),
        r is None <==> total_size(sizes@) > u64::MAX,
{
    let mut t: u64 = 0;
    let mut i: usize = 0;
    while i < sizes.len()
        invariant
            i <= sizes@.len(),
            t == total_size(sizes@.subrange(0, i as int)),
        decreases sizes@.len() - i,
    {
        assert(sizes@.subrange(0, i + 1).drop_last() =~= sizes@.subrange(0, i as int));
        if sizes[i] > u64::MAX - t {
            proof {
                lemma_total_prefix(sizes@, i + 1);
            }
            return None;
        }
        t = t + sizes[i];
        i += 1;
    }
    assert(sizes@.subrange(0, sizes@.len() as int) =~= sizes@);
    Some(t)
}

/// The sum of a list of sizes.
pub open spec fn total_size(sizes: Seq<u64>) -> int
    decreases sizes.len(),
{
    if sizes.len() == 0 {
        0
    } else {
        total_size(sizes.drop_last()) + sizes.last()
    }
}

proof fn lemma_total_prefix(sizes: Seq<u64>, i: int)
    requires
        0 <= i <= sizes.len(),
    ensures
        total_size(sizes.subrange(0, i)) <= total_size(sizes),
    decreases sizes.len() - i,
{
    if i < sizes.len() {
        lemma_total_prefix(sizes, i + 1);
        assert(sizes.subrange(0, i + 1).drop_last() =~= sizes.subrange(0, i));
    } else {
        assert(sizes.subrange(0, i) =~= sizes);
    }
}

proof fn lemma_all_succeeded(paths: Seq<Seq<u8>>, sizes: Seq<u64>, outcomes: Seq<ItemOutcome>)
    requires
        outcomes.len() == sizes.len(),
        paths.len() == sizes.len(),
        forall|i: int| 0 <= i < sizes.len() ==> outcomes[i] == ItemOutcome::Succeeded(sizes[i]),
    ensures
        count_of(outcomes, |o: ItemOutcome| is_success(o)) == sizes.len(),
        count_of(outcomes, |o: ItemOutcome| is_skip(o)) == 0,
        count_of(outcomes, |o: ItemOutcome| is_cancel(o)) == 0,
        bytes_of(outcomes) == total_size(sizes),
        failures_of(paths, outcomes).len() == 0,
    decreases sizes.len(),
{
    if sizes.len() > 0 {
        let n = sizes.len() - 1;
        assert forall|i: int| 0 <= i < n implies outcomes.drop_last()[i] == ItemOutcome::Succeeded(
            sizes.drop_last()[i],
        ) by {
            assert(outcomes[i] == ItemOutcome::Succeeded(sizes[i]));
        }
        lemma_all_succeeded(paths.drop_last(), sizes.drop_last(), outcomes.drop_last());
        assert(outcomes.last() == ItemOutcome::Succeeded(sizes[n]));
    }
}

/// A copy in which every file succeeded with its source's size reports as
/// many items and as many bytes as the walk of the sources found, with
/// nothing skipped and no failure.
pub proof fn lemma_full_copy_totals(
    paths: Seq<Seq<u8>>,
    sizes: Seq<u64>,
    outcomes: Seq<ItemOutcome>,
    s: Summary,
)
    requires
        outcomes.len() == sizes.len(),
        forall|i: int| 0 <= i < sizes.len() ==> outcomes[i] == ItemOutcome::Succeeded(sizes[i]),
        s.sums(paths, outcomes),
    ensures
        s.succeeded == sizes.len(),
        s.skipped == 0,
        s.cancelled == 0,
        s.bytes == total_size(sizes),
        s.failures@.len() == 0,
{
    lemma_all_succeeded(paths, sizes, outcomes);
    assert(failure_views(s.failures@).len() == s.failures@.len());
}

} // verus!
