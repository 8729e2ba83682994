use vstd::prelude::*;

use crate::archive::ArchiveFormat;
use crate::error::ErrorKind;
use crate::name::{same_bytes, views};
use crate::progress::{updated, ProgressSnapshot, ProgressUpdate};
use crate::state::{is_terminal, next_state, terminal, transition, Event, OperationState};

verus! {

/// Where a deleted item goes.
#[derive(Clone, Copy, Debug, PartialEq, Eq, Structural)]
pub enum DeleteMode {
    ToTrash,
    Permanent,
}

/// What an operation does; fixed when the operation is created.
#[derive(Clone, Copy, Debug, PartialEq, Eq, Structural)]
pub enum OperationKind {
    Copy,
    Move,
    Delete(DeleteMode),
    Restore,
    Rename,
    NewFolder,
    NewFile,
    Compress(ArchiveFormat),
    Extract,
    /// Removing everything in the trash, which cannot be undone.
    EmptyTrash,
}

/// One operation that the scheduler keeps: its id, what it does, the path
/// (as components) that it writes below, where it stands, and its progress.
pub struct OperationRecord {
    pub id: u64,
    pub kind: OperationKind,
    pub target: Vec<Vec<u8>>,
    pub state: OperationState,
    pub progress: ProgressSnapshot,
}

/// Operations in order of submission, finished ones kept for inspection up to
/// `retention` of them, and at most `workers` of them at work at one time.
pub struct Scheduler {
    pub next_id: u64,
    pub ops: Vec<OperationRecord>,
    pub workers: usize,
    pub retention: usize,
}

/// An operation in this state holds a worker and its target path.
pub open spec fn is_active(s: OperationState) -> bool {
    match s {
        OperationState::Running | OperationState::Paused | OperationState::Cancelling => true,
        _ => false,
    }
}

/// How many of `ops` are finished.
pub open spec fn finished_count(ops: Seq<OperationRecord>) -> nat
    decreases ops.len(),
{
    if ops.len() == 0 {
        0
    } else {
        finished_count(ops.drop_last()) + if is_terminal(ops.last().state) {
            1nat
        } else {
            0nat
        }
    }
}

/// How many of `ops` are at work.
pub open spec fn active_count(ops: Seq<OperationRecord>) -> nat
    decreases ops.len(),
{
    if ops.len() == 0 {
        0
    } else {
        active_count(ops.drop_last()) + if is_active(ops.last().state) {
            1nat
        } else {
            0nat
        }
    }
}

/// One path is a prefix of the other: work below one may touch the other.
pub open spec fn overlaps(a: Seq<Seq<u8>>, b: Seq<Seq<u8>>) -> bool {
    ||| (a.len() <= b.len() && b.subrange(0, a.len() as int) == a)
    ||| (b.len() <= a.len() && a.subrange(0, b.len() as int) == b)
}

/// The operation at `i` is queued, a worker is free, and no operation at work
/// writes below a path that overlaps its target.
pub open spec fn may_start(ops: Seq<OperationRecord>, workers: nat, i: int) -> bool {
    &&& 0 <= i < ops.len()
    &&& ops[i].state == OperationState::Queued
    &&& active_count(ops) < workers
    &&& forall|j: int|
        0 <= j < ops.len() && is_active(ops[j].state) ==> !overlaps(
            views(ops[j].target@),
            views(ops[i].target@),
        )
}

/// `ops` with the record at `i` moved to `state`.
pub open spec fn with_state(ops: Seq<OperationRecord>, i: int, state: OperationState) -> Seq<
    OperationRecord,
> {
    ops.update(i, OperationRecord { state, ..ops[i] })
}

/// `after` is `ops` with the oldest finished record dropped where more than
/// `retention` are finished, and `ops` itself otherwise.
pub open spec fn evicted(ops: Seq<OperationRecord>, retention: nat, after: Seq<OperationRecord>) -> bool {
    if finished_count(ops) > retention {
        exists|k: int|
            0 <= k < ops.len() && is_terminal(ops[k].state) && (forall|j: int|
                0 <= j < k ==> !is_terminal(#[trigger] ops[j].state)) && after == ops.remove(k)
    } else {
        after == ops
    }
}

proof fn lemma_finished_update(s: Seq<OperationRecord>, k: int, x: OperationRecord)
    requires
        0 <= k < s.len(),
    ensures
        finished_count(s.update(k, x)) + (if is_terminal(s[k].state) {
            1int
        } else {
            0int
        }) == finished_count(s) + (if is_terminal(x.state) {
            1int
        } else {
            0int
        }),
    decreases s.len(),
{
    if k == s.len() - 1 {
        assert(s.update(k, x).drop_last() =~= s.drop_last());
    } else {
        assert(s.update(k, x).drop_last() =~= s.drop_last().update(k, x));
        lemma_finished_update(s.drop_last(), k, x);
    }
}

proof fn lemma_finished_remove(s: Seq<OperationRecord>, k: int)
    requires
        0 <= k < s.len(),
    ensures
        finished_count(s.remove(k)) + (if is_terminal(s[k].state) {
            1int
        } else {
            0int
        }) == finished_count(s),
    decreases s.len(),
{
    if k == s.len() - 1 {
        assert(s.remove(k) =~= s.drop_last());
    } else {
        assert(s.remove(k).drop_last() =~= s.drop_last().remove(k));
        lemma_finished_remove(s.drop_last(), k);
    }
}

proof fn lemma_counts_push(s: Seq<OperationRecord>, x: OperationRecord)
    ensures
        finished_count(s.push(x)) == finished_count(s) + if is_terminal(x.state) {
            1nat
        } else {
            0nat
        },
        active_count(s.push(x)) == active_count(s) + if is_active(x.state) {
            1nat
        } else {
            0nat
        },
{
    assert(s.push(x).drop_last() =~= s);
}

/// Tells whether one of two paths is a prefix of the other.
pub fn paths_overlap(a: &Vec<Vec<u8>>, b: &Vec<Vec<u8>>) -> (r: bool)
    ensures
        r == overlaps(views(a@), views(b@)),
{
    let n = if a.len() <= b.len() {
        a.len()
    } else {
        b.len()
    };
    let ghost va = views(a@);
    let ghost vb = views(b@);
    let mut i: usize = 0;
    while i < n
        invariant
            n <= a.len(),
            n <= b.len(),
            n == a.len() || n == b.len(),
            va == views(a@),
            vb == views(b@),
            i <= n,
            va.subrange(0, i as int) == vb.subrange(0, i as int),
        decreases n - i,
    {
        if !same_bytes(&a[i], &b[i]) {
            assert(va[i as int] != vb[i as int]);
            assert(va.subrange(0, n as int)[i as int] == va[i as int]);
            assert(vb.subrange(0, n as int)[i as int] == vb[i as int]);
            if a.len() <= b.len() {
                assert(va.subrange(0, n as int) =~= va);
            } else {
                assert(vb.subrange(0, n as int) =~= vb);
            }
            return false;
        }
        assert(va.subrange(0, i + 1) =~= va.subrange(0, i as int).push(va[i as int]));
        assert(vb.subrange(0, i + 1) =~= vb.subrange(0, i as int).push(vb[i as int]));
        i += 1;
    }
    if a.len() <= b.len() {
        assert(va.subrange(0, n as int) =~= va);
    } else {
        assert(vb.subrange(0, n as int) =~= vb);
    }
    true
}

impl Scheduler {
    /// Ids increase along the records and stay below `next_id`; no more
    /// finished records are kept than `retention` allows; no snapshot shows
    /// more done than a known total.
    pub open spec fn wf(&self) -> bool {
        &&& forall|i: int, j: int|
            0 <= i < j < self.ops@.len() ==> self.ops@[i].id < self.ops@[j].id
        &&& forall|i: int| 0 <= i < self.ops@.len() ==> self.ops@[i].id < self.next_id
        &&& finished_count(self.ops@) <= self.retention
        &&& forall|i: int| 0 <= i < self.ops@.len() ==> (#[trigger] self.ops@[i]).progress.wf()
    }

    /// An empty scheduler with `workers` workers that keeps up to `retention`
    /// finished operations.
    pub fn new(workers: usize, retention: usize) -> (r: Scheduler)
        ensures
            r.wf(),
            r.ops@.len() == 0,
            r.next_id == 1,
            r.workers == workers,
            r.retention == retention,
    {
        Scheduler { next_id: 1, ops: Vec::new(), workers, retention }
    }

    /// Queues an operation and returns its id at once. The id is new: larger
    /// than that of every operation handed out before.
    pub fn enqueue(&mut self, kind: OperationKind, target: Vec<Vec<u8>>) -> (id: u64)
        requires
            old(self).wf(),
            old(self).next_id < u64::MAX,
        ensures
            final(self).wf(),
            id == old(self).next_id,
            final(self).next_id == id + 1,
            final(self).workers == old(self).workers,
            final(self).retention == old(self).retention,
            final(self).ops@.len() == old(self).ops@.len() + 1,
            final(self).ops@.drop_last() == old(self).ops@,
            final(self).ops@.last().id == id,
            final(self).ops@.last().kind == kind,
            final(self).ops@.last().target == target,
            final(self).ops@.last().state == OperationState::Queued,
            final(self).ops@.last().progress.bytes_done == 0,
            final(self).ops@.last().progress.items_done == 0,
            final(self).ops@.last().progress.bytes_total is None,
            final(self).ops@.last().progress.items_total is None,
    {
        let id = self.next_id;
        let rec = OperationRecord {
            id,
            kind,
            target,
            state: OperationState::Queued,
            progress: ProgressSnapshot::new(),
        };
        proof {
            lemma_counts_push(self.ops@, rec);
        }
        self.ops.push(rec);
        self.next_id = id + 1;
        assert(self.ops@.drop_last() =~= old(self).ops@);
        id
    }

    /// The index of the operation with id `id`, if it is kept.
    pub fn find(&self, id: u64) -> (r: Option<usize>)
        requires
            self.wf(),
        ensures
            r matches Some(i) ==> i < self.ops@.len() && self.ops@[i as int].id == id,
            r is None ==> forall|i: int| 0 <= i < self.ops@.len() ==> self.ops@[i].id != id,
    {
        let mut i: usize = 0;
        while i < self.ops.len()
            invariant
                i <= self.ops@.len(),
                forall|j: int| 0 <= j < i ==> self.ops@[j].id != id,
            decreases self.ops@.len() - i,
        {
            if self.ops[i].id == id {
                return Some(i);
            }
            i += 1;
        }
        None
    }

    /// The state of the operation with id `id`, if it is kept.
    pub fn state_of(&self, id: u64) -> (r: Option<OperationState>)
        requires
            self.wf(),
        ensures
            r matches Some(s) ==> exists|i: int|
                0 <= i < self.ops@.len() && self.ops@[i].id == id && self.ops@[i].state == s,
            r is None ==> forall|i: int| 0 <= i < self.ops@.len() ==> self.ops@[i].id != id,
    {
        match self.find(id) {
            Some(i) => Some(self.ops[i].state),
            None => None,
        }
    }

    /// Tells whether the operation at `i` may be taken up now.
    pub fn can_start(&self, i: usize) -> (r: bool)
        requires
            i < self.ops@.len(),
        ensures
            r == may_start(self.ops@, self.workers as nat, i as int),
    {
        if self.ops[i].state != OperationState::Queued {
            return false;
        }
        let mut active: usize = 0;
        let mut clash = false;
        let mut j: usize = 0;
        while j < self.ops.len()
            invariant
                j <= self.ops@.len(),
                i < self.ops@.len(),
                active as nat == active_count(self.ops@.subrange(0, j as int)),
                active <= j,
                clash == exists|k: int|
                    0 <= k < j && is_active(self.ops@[k].state) && overlaps(
                        views(self.ops@[k].target@),
                        views(self.ops@[i as int].target@),
                    ),
            decreases self.ops@.len() - j,
        {
            let s = self.ops[j].state;
            let busy = s == OperationState::Running || s == OperationState::Paused || s
                == OperationState::Cancelling;
            assert(busy == is_active(s));
            if busy {
                active += 1;
                if paths_overlap(&self.ops[j].target, &self.ops[i].target) {
                    clash = true;
                }
            }
            assert(self.ops@.subrange(0, j + 1).drop_last() =~= self.ops@.subrange(0, j as int));
            j += 1;
        }
        assert(self.ops@.subrange(0, self.ops@.len() as int) =~= self.ops@);
        active < self.workers && !clash
    }

    /// Takes up the first queued operation that may start, moves it to
    /// Running and returns its id; `None`, with nothing changed, where none may.
    pub fn start_next(&mut self) -> (r: Option<u64>)
        requires
            old(self).wf(),
        ensures
            final(self).wf(),
            final(self).next_id == old(self).next_id,
            final(self).workers == old(self).workers,
            final(self).retention == old(self).retention,
            r is None ==> final(self).ops@ == old(self).ops@ && forall|i: int|
                0 <= i < old(self).ops@.len() ==> !may_start(
                    old(self).ops@,
                    old(self).workers as nat,
                    i,
                ),
            r matches Some(id) ==> exists|i: int|
                may_start(old(self).ops@, old(self).workers as nat, i) && (forall|j: int|
                    0 <= j < i ==> !may_start(old(self).ops@, old(self).workers as nat, j))
                    && old(self).ops@[i].id == id && final(self).ops@ == with_state(
                    old(self).ops@,
                    i,
                    OperationState::Running,
                ),
    {
        let mut i: usize = 0;
        while i < self.ops.len()
            invariant
                self.wf(),
                self == old(self),
                i <= self.ops@.len(),
                forall|j: int| 0 <= j < i ==> !may_start(self.ops@, self.workers as nat, j),
            decreases self.ops@.len() - i,
        {
            if self.can_start(i) {
                let id = self.ops[i].id;
                let ghost before = self.ops@;
                let mut rec = self.ops.remove(i);
                rec.state = OperationState::Running;
                self.ops.insert(i, rec);
                assert(self.ops@ =~= with_state(before, i as int, OperationState::Running));
                proof {
                    lemma_finished_update(before, i as int, self.ops@[i as int]);
                }
                return Some(id);
            }
            i += 1;
        }
        None
    }

    /// Applies `event` to the operation with id `id` and returns its new
    /// state. `NotFound` where no kept operation has that id, `InvalidRequest`
    /// where the event is not allowed in its state or is `Start` (which only
    /// `start_next` gives); nothing changes on an error. Where the operation
    /// has finished, the oldest finished record is dropped once more than
    /// `retention` are kept.
    pub fn apply(&mut self, id: u64, event: Event) -> (r: Result<OperationState, ErrorKind>)
        requires
            old(self).wf(),
        ensures
            final(self).wf(),
            final(self).next_id == old(self).next_id,
            final(self).workers == old(self).workers,
            final(self).retention == old(self).retention,
            r is Err ==> final(self).ops@ == old(self).ops@,
            r == Err::<OperationState, ErrorKind>(ErrorKind::NotFound) <==> forall|i: int|
                0 <= i < old(self).ops@.len() ==> old(self).ops@[i].id != id,
            r matches Ok(t) ==> exists|i: int|
                0 <= i < old(self).ops@.len() && old(self).ops@[i].id == id && event
                    != Event::Start && next_state(old(self).ops@[i].state, event) == Some(t)
                    && evicted(
                    with_state(old(self).ops@, i, t),
                    old(self).retention as nat,
                    final(self).ops@,
                ),
            r == Err::<OperationState, ErrorKind>(ErrorKind::InvalidRequest) ==> exists|i: int|
                0 <= i < old(self).ops@.len() && old(self).ops@[i].id == id && (event
                    == Event::Start || next_state(old(self).ops@[i].state, event) is None),
            r matches Err(e) ==> e == ErrorKind::NotFound || e == ErrorKind::InvalidRequest,
    {
        let i = match self.find(id) {
            Some(i) => i,
            None => {
                return Err(ErrorKind::NotFound);
            },
        };
        if event == Event::Start {
            return Err(ErrorKind::InvalidRequest);
        }
        let t = match transition(self.ops[i].state, event) {
            Some(t) => t,
            None => {
                return Err(ErrorKind::InvalidRequest);
            },
        };
        let ghost before = self.ops@;
        let mut rec = self.ops.remove(i);
        rec.state = t;
        self.ops.insert(i, rec);
        let ghost after = with_state(before, i as int, t);
        assert(self.ops@ =~= after);
        proof {
            lemma_finished_update(before, i as int, after[i as int]);
        }
        if terminal(t) {
            self.evict_one();
        }
        assert(evicted(after, self.retention as nat, self.ops@));
        Ok(t)
    }

    /// Drops the oldest finished record where more than `retention` are kept.
    fn evict_one(&mut self)
        requires
            forall|i: int, j: int|
                0 <= i < j < old(self).ops@.len() ==> old(self).ops@[i].id < old(self).ops@[j].id,
            forall|i: int| 0 <= i < old(self).ops@.len() ==> old(self).ops@[i].id < old(self).next_id,
            finished_count(old(self).ops@) <= old(self).retention + 1,
            forall|i: int| 0 <= i < old(self).ops@.len() ==> (#[trigger] old(self).ops@[i]).progress.wf(),
        ensures
            final(self).wf(),
            final(self).next_id == old(self).next_id,
            final(self).workers == old(self).workers,
            final(self).retention == old(self).retention,
            evicted(old(self).ops@, old(self).retention as nat, final(self).ops@),
    {
        if self.count_finished() <= self.retention {
            return;
        }
        let mut k: usize = 0;
        while k < self.ops.len()
            invariant
                self == old(self),
                finished_count(self.ops@) == self.retention + 1,
                forall|i: int, j: int|
                    0 <= i < j < old(self).ops@.len() ==> old(self).ops@[i].id < old(self).ops@[j].id,
                forall|i: int| 0 <= i < old(self).ops@.len() ==> old(self).ops@[i].id < old(self).next_id,
                forall|i: int| 0 <= i < old(self).ops@.len() ==> (#[trigger] old(self).ops@[i]).progress.wf(),
                k <= self.ops@.len(),
                forall|j: int| 0 <= j < k ==> !is_terminal(#[trigger] self.ops@[j].state),
            decreases self.ops@.len() - k,
        {
            if terminal(self.ops[k].state) {
                let ghost before = self.ops@;
                assert(before == old(self).ops@);
                proof {
                    lemma_finished_remove(before, k as int);
                }
                self.ops.remove(k);
                assert(self.ops@ == before.remove(k as int));
                assert forall|a: int, b: int| 0 <= a < b < self.ops@.len() implies self.ops@[a].id
                    < self.ops@[b].id by {
                    let a0 = if a < k { a } else { a + 1 };
                    let b0 = if b < k { b } else { b + 1 };
                    assert(self.ops@[a] == before[a0]);
                    assert(self.ops@[b] == before[b0]);
                    assert(old(self).ops@[a0].id < old(self).ops@[b0].id);
                }
                assert forall|a: int| 0 <= a < self.ops@.len() implies self.ops@[a].id
                    < self.next_id by {
                    let a0 = if a < k { a } else { a + 1 };
                    assert(self.ops@[a] == before[a0]);
                    assert(old(self).ops@[a0].id < old(self).next_id);
                }
                assert forall|a: int| 0 <= a < self.ops@.len() implies (#[trigger] self.ops@[a]).progress.wf() by {
                    let a0 = if a < k { a } else { a + 1 };
                    assert(self.ops@[a] == before[a0]);
                    assert(old(self).ops@[a0].progress.wf());
                }
                return;
            }
            k += 1;
        }
        proof {
            lemma_no_finished(self.ops@);
        }
    }

    /// How many kept operations are finished.
    fn count_finished(&self) -> (r: usize)
        ensures
            r as nat == finished_count(self.ops@),
    {
        let mut n: usize = 0;
        let mut j: usize = 0;
        while j < self.ops.len()
            invariant
                j <= self.ops@.len(),
                n as nat == finished_count(self.ops@.subrange(0, j as int)),
                n <= j,
            decreases self.ops@.len() - j,
        {
            if terminal(self.ops[j].state) {
                n += 1;
            }
            assert(self.ops@.subrange(0, j + 1).drop_last() =~= self.ops@.subrange(0, j as int));
            j += 1;
        }
        assert(self.ops@.subrange(0, self.ops@.len() as int) =~= self.ops@);
        n
    }

    /// Applies a worker's progress report to the operation with id `id` and
    /// returns the new snapshot. `NotFound` where no kept operation has that
    /// id, `InvalidRequest` where it is not at work (queued or finished, so
    /// its counters stay as they were); nothing changes on an error.
    pub fn report(&mut self, id: u64, u: ProgressUpdate) -> (r: Result<ProgressSnapshot, ErrorKind>)
        requires
            old(self).wf(),
        ensures
            final(self).wf(),
            final(self).next_id == old(self).next_id,
            final(self).workers == old(self).workers,
            final(self).retention == old(self).retention,
            r is Err ==> final(self).ops@ == old(self).ops@,
            r == Err::<ProgressSnapshot, ErrorKind>(ErrorKind::NotFound) <==> forall|i: int|
                0 <= i < old(self).ops@.len() ==> old(self).ops@[i].id != id,
            r == Err::<ProgressSnapshot, ErrorKind>(ErrorKind::InvalidRequest) ==> exists|i: int|
                0 <= i < old(self).ops@.len() && old(self).ops@[i].id == id && !is_active(
                    old(self).ops@[i].state,
                ),
            r matches Ok(p) ==> exists|i: int|
                0 <= i < old(self).ops@.len() && old(self).ops@[i].id == id && is_active(
                    old(self).ops@[i].state,
                ) && p == updated(old(self).ops@[i].progress, u) && final(self).ops@
                    == old(self).ops@.update(i, OperationRecord { progress: p, ..old(self).ops@[i] }),
            r matches Err(e) ==> e == ErrorKind::NotFound || e == ErrorKind::InvalidRequest,
    {
        let i = match self.find(id) {
            Some(i) => i,
            None => {
                return Err(ErrorKind::NotFound);
            },
        };
        let s = self.ops[i].state;
        let busy = s == OperationState::Running || s == OperationState::Paused || s
            == OperationState::Cancelling;
        if !busy {
            return Err(ErrorKind::InvalidRequest);
        }
        let ghost before = self.ops@;
        let mut rec = self.ops.remove(i);
        rec.progress.update(u);
        let p = rec.progress;
        self.ops.insert(i, rec);
        assert(self.ops@ =~= before.update(i as int, OperationRecord { progress: p, ..before[i as int] }));
        proof {
            lemma_finished_update(before, i as int, self.ops@[i as int]);
        }
        Ok(p)
    }

    /// The progress of the operation with id `id`, if it is kept.
    pub fn progress_of(&self, id: u64) -> (r: Option<ProgressSnapshot>)
        requires
            self.wf(),
        ensures
            r matches Some(p) ==> exists|i: int|
                0 <= i < self.ops@.len() && self.ops@[i].id == id && self.ops@[i].progress == p,
            r is None ==> forall|i: int| 0 <= i < self.ops@.len() ==> self.ops@[i].id != id,
    {
        match self.find(id) {
            Some(i) => Some(self.ops[i].progress),
            None => None,
        }
    }

    /// Drops the finished operation with id `id` from the kept records; false,
    /// with nothing changed, where no finished operation has that id.
    pub fn purge(&mut self, id: u64) -> (r: bool)
        requires
            old(self).wf(),
        ensures
            final(self).wf(),
            final(self).next_id == old(self).next_id,
            final(self).workers == old(self).workers,
            final(self).retention == old(self).retention,
            r <==> exists|i: int|
                0 <= i < old(self).ops@.len() && old(self).ops@[i].id == id && is_terminal(
                    old(self).ops@[i].state,
                ),
            r ==> exists|i: int|
                0 <= i < old(self).ops@.len() && old(self).ops@[i].id == id
                    && final(self).ops@ == old(self).ops@.remove(i),
            !r ==> final(self).ops@ == old(self).ops@,
    {
        match self.find(id) {
            None => false,
            Some(i) => {
                if !terminal(self.ops[i].state) {
                    assert forall|k: int|
                        0 <= k < self.ops@.len() && self.ops@[k].id == id implies !is_terminal(
                        self.ops@[k].state,
                    ) by {
                        if k < i {
                            assert(self.ops@[k].id < self.ops@[i as int].id);
                        } else if k > i {
                            assert(self.ops@[i as int].id < self.ops@[k].id);
                        }
                    }
                    return false;
                }
                let ghost before = self.ops@;
                proof {
                    lemma_finished_remove(before, i as int);
                }
                self.ops.remove(i);
                true
            },
        }
    }
}

proof fn lemma_no_finished(s: Seq<OperationRecord>)
    requires
        forall|j: int| 0 <= j < s.len() ==> !is_terminal(#[trigger] s[j].state),
    ensures
        finished_count(s) == 0,
    decreases s.len(),
{
    if s.len() > 0 {
        assert forall|j: int| 0 <= j < s.drop_last().len() implies !is_terminal(
            #[trigger] s.drop_last()[j].state,
        ) by {
            assert(s.drop_last()[j] == s[j]);
        }
        lemma_no_finished(s.drop_last());
        assert(!is_terminal(s[s.len() - 1].state));
    }
}

} // verus!
