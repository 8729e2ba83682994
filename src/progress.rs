use vstd::prelude::*;

use crate::error::ErrorKind;

verus! {

/// How far an operation has come. A total is `None` until the walk of the
/// sources has produced an estimate.
#[derive(Clone, Copy, Debug, PartialEq, Eq, Structural)]
pub struct ProgressSnapshot {
    pub bytes_done: u64,
    pub bytes_total: Option<u64>,
    pub items_done: u64,
    pub items_total: Option<u64>,
}

/// `done` does not exceed a known `total`.
pub open spec fn within(done: u64, total: Option<u64>) -> bool {
    total matches Some(t) ==> done <= t
}

pub open spec fn max_u64(a: u64, b: u64) -> u64 {
    if a >= b {
        a
    } else {
        b
    }
}

pub open spec fn sat_add(a: u64, b: u64) -> u64 {
    if a + b > u64::MAX {
        u64::MAX
    } else {
        (a + b) as u64
    }
}

/// `n`, or a known total where that is larger: totals only go up.
pub open spec fn raised(total: Option<u64>, n: u64) -> u64 {
    match total {
        Some(t) => max_u64(t, n),
        None => n,
    }
}

/// A known total raised, where needed, to cover `done`.
pub open spec fn covering(total: Option<u64>, done: u64) -> Option<u64> {
    match total {
        Some(t) => Some(max_u64(t, done)),
        None => None,
    }
}

/// A report that a worker makes on an operation's progress.
#[derive(Clone, Copy, Debug, PartialEq, Eq, Structural)]
pub enum ProgressUpdate {
    /// This many more bytes and items are done.
    Advance { bytes: u64, items: u64 },
    /// A walk of the sources found these totals.
    Totals { bytes: u64, items: u64 },
}

/// `p` after `u`.
pub open spec fn updated(p: ProgressSnapshot, u: ProgressUpdate) -> ProgressSnapshot {
    match u {
        ProgressUpdate::Advance { bytes, items } => {
            let b = sat_add(p.bytes_done, bytes);
            let i = sat_add(p.items_done, items);
            ProgressSnapshot {
                bytes_done: b,
                bytes_total: covering(p.bytes_total, b),
                items_done: i,
                items_total: covering(p.items_total, i),
            }
        },
        ProgressUpdate::Totals { bytes, items } => ProgressSnapshot {
            bytes_total: Some(raised(p.bytes_total, max_u64(bytes, p.bytes_done))),
            items_total: Some(raised(p.items_total, max_u64(items, p.items_done))),
            ..p
        },
    }
}

impl ProgressSnapshot {
    /// Done never exceeds a known total.
    pub open spec fn wf(&self) -> bool {
        within(self.bytes_done, self.bytes_total) && within(self.items_done, self.items_total)
    }

    /// Nothing done, totals not known yet.
    pub fn new() -> (r: ProgressSnapshot)
        ensures
            r.wf(),
            r.bytes_done == 0 && r.items_done == 0,
            r.bytes_total is None && r.items_total is None,
    {
        ProgressSnapshot { bytes_done: 0, bytes_total: None, items_done: 0, items_total: None }
    }

    /// Applies a worker's report.
    pub fn update(&mut self, u: ProgressUpdate)
        ensures
            final(self).wf(),
            *final(self) == updated(*old(self), u),
    {
        match u {
            ProgressUpdate::Advance { bytes, items } => self.advance(bytes, items),
            ProgressUpdate::Totals { bytes, items } => self.set_totals(bytes, items),
        }
    }

    /// Sets the totals from a walk of the sources. Estimates are only
    /// corrected upward: a total never drops below a total known before, nor
    /// below what is already done.
    pub fn set_totals(&mut self, bytes: u64, items: u64)
        ensures
            final(self).wf(),
            final(self).bytes_done == old(self).bytes_done,
            final(self).items_done == old(self).items_done,
            final(self).bytes_total == Some(
                raised(old(self).bytes_total, max_u64(bytes, old(self).bytes_done)),
            ),
            final(self).items_total == Some(
                raised(old(self).items_total, max_u64(items, old(self).items_done)),
            ),
    {
        let mut b = if bytes >= self.bytes_done {
            bytes
        } else {
            self.bytes_done
        };
        if let Some(t) = self.bytes_total {
            if t > b {
                b = t;
            }
        }
        let mut i = if items >= self.items_done {
            items
        } else {
            self.items_done
        };
        if let Some(t) = self.items_total {
            if t > i {
                i = t;
            }
        }
        self.bytes_total = Some(b);
        self.items_total = Some(i);
    }

    /// Counts `bytes` and `items` more as done. The counters never go down
    /// (they stop at the largest `u64`), and a known total that the new count
    /// passes is corrected upward to it.
    pub fn advance(&mut self, bytes: u64, items: u64)
        ensures
            final(self).wf(),
            final(self).bytes_done == sat_add(old(self).bytes_done, bytes),
            final(self).items_done == sat_add(old(self).items_done, items),
            final(self).bytes_done >= old(self).bytes_done,
            final(self).items_done >= old(self).items_done,
            final(self).bytes_total == covering(old(self).bytes_total, final(self).bytes_done),
            final(self).items_total == covering(old(self).items_total, final(self).items_done),
    {
        self.bytes_done = self.bytes_done.saturating_add(bytes);
        self.items_done = self.items_done.saturating_add(items);
        self.bytes_total = match self.bytes_total {
            Some(t) => Some(if t >= self.bytes_done { t } else { self.bytes_done }),
            None => None,
        };
        self.items_total = match self.items_total {
            Some(t) => Some(if t >= self.items_done { t } else { self.items_done }),
            None => None,
        };
    }
}

/// How one item of an operation ended.
#[derive(Clone, Copy, Debug, PartialEq, Eq, Structural)]
pub enum ItemOutcome {
    /// Written, with this many bytes.
    Succeeded(u64),
    Failed(ErrorKind),
    Skipped,
    /// Stopped by a cancel; any partial output was removed. Neither a
    /// success nor a failure.
    Cancelled,
}

/// One item that failed, and why.
pub struct ItemFailure {
    pub path: Vec<u8>,
    pub kind: ErrorKind,
}

/// How an operation ended as a whole.
#[derive(Clone, Copy, Debug, PartialEq, Eq, Structural)]
pub enum Status {
    /// No item failed.
    Success,
    /// Some items failed and some succeeded.
    Partial,
    /// Items failed and none succeeded.
    Failure,
}

/// The result of an operation: the counts of items that succeeded, that
/// were skipped and that a cancel stopped, each failed item with its error, and the bytes written.
pub struct Summary {
    pub succeeded: u64,
    pub skipped: u64,
    pub cancelled: u64,
    pub failures: Vec<ItemFailure>,
    pub bytes: u64,
}

/// The bytes that a list of outcomes wrote.
pub open spec fn bytes_of(outcomes: Seq<ItemOutcome>) -> int
    decreases outcomes.len(),
{
    if outcomes.len() == 0 {
        0
    } else {
        bytes_of(outcomes.drop_last()) + match outcomes.last() {
            ItemOutcome::Succeeded(n) => n as int,
            _ => 0,
        }
    }
}

/// How many of a list of outcomes satisfy `f`.
pub open spec fn count_of(outcomes: Seq<ItemOutcome>, f: spec_fn(ItemOutcome) -> bool) -> int
    decreases outcomes.len(),
{
    if outcomes.len() == 0 {
        0
    } else {
        count_of(outcomes.drop_last(), f) + if f(outcomes.last()) {
            1int
        } else {
            0int
        }
    }
}

/// The failed items of a batch, as (path, error), in order.
pub open spec fn failures_of(paths: Seq<Seq<u8>>, outcomes: Seq<ItemOutcome>) -> Seq<(Seq<u8>, ErrorKind)>
    decreases outcomes.len(),
{
    if outcomes.len() == 0 || paths.len() != outcomes.len() {
        Seq::empty()
    } else {
        let front = failures_of(paths.drop_last(), outcomes.drop_last());
        match outcomes.last() {
            ItemOutcome::Failed(k) => front.push((paths.last(), k)),
            _ => front,
        }
    }
}

/// A list of failures as (path, error) pairs.
pub open spec fn failure_views(f: Seq<ItemFailure>) -> Seq<(Seq<u8>, ErrorKind)> {
    f.map_values(|x: ItemFailure| (x.path@, x.kind))
}

pub open spec fn is_success(o: ItemOutcome) -> bool {
    o is Succeeded
}

pub open spec fn is_skip(o: ItemOutcome) -> bool {
    o is Skipped
}

pub open spec fn is_cancel(o: ItemOutcome) -> bool {
    o is Cancelled
}

impl Summary {
    /// Nothing recorded yet.
    pub fn new() -> (r: Summary)
        ensures
            r.succeeded == 0,
            r.skipped == 0,
            r.cancelled == 0,
            r.failures@.len() == 0,
            r.bytes == 0,
    {
        Summary { succeeded: 0, skipped: 0, cancelled: 0, failures: Vec::new(), bytes: 0 }
    }

    /// The summary holds exactly what `outcomes` (with `paths`) add up to.
    pub open spec fn sums(&self, paths: Seq<Seq<u8>>, outcomes: Seq<ItemOutcome>) -> bool {
        &&& self.succeeded == count_of(outcomes, |o: ItemOutcome| is_success(o))
        &&& self.skipped == count_of(outcomes, |o: ItemOutcome| is_skip(o))
        &&& self.cancelled == count_of(outcomes, |o: ItemOutcome| is_cancel(o))
        &&& failure_views(self.failures@) == failures_of(paths, outcomes)
        &&& self.bytes == bytes_of(outcomes)
        &&& paths.len() == outcomes.len()
    }

    /// Records how one item ended. The counts are bounded by the number of
    /// items, which `u64` holds; the bytes must fit too.
    pub fn record(&mut self, path: Vec<u8>, outcome: ItemOutcome)
        requires
            old(self).succeeded < u64::MAX,
            old(self).skipped < u64::MAX,
            old(self).cancelled < u64::MAX,
            outcome matches ItemOutcome::Succeeded(n) ==> old(self).bytes + n <= u64::MAX,
        ensures
            match outcome {
                ItemOutcome::Succeeded(n) => {
                    &&& final(self).succeeded == old(self).succeeded + 1
                    &&& final(self).bytes == old(self).bytes + n
                    &&& final(self).skipped == old(self).skipped
                    &&& final(self).cancelled == old(self).cancelled
                    &&& final(self).failures@ == old(self).failures@
                },
                ItemOutcome::Skipped => {
                    &&& final(self).succeeded == old(self).succeeded
                    &&& final(self).bytes == old(self).bytes
                    &&& final(self).skipped == old(self).skipped + 1
                    &&& final(self).cancelled == old(self).cancelled
                    &&& final(self).failures@ == old(self).failures@
                },
                ItemOutcome::Cancelled => {
                    &&& final(self).succeeded == old(self).succeeded
                    &&& final(self).bytes == old(self).bytes
                    &&& final(self).skipped == old(self).skipped
                    &&& final(self).cancelled == old(self).cancelled + 1
                    &&& final(self).failures@ == old(self).failures@
                },
                ItemOutcome::Failed(k) => {
                    &&& final(self).succeeded == old(self).succeeded
                    &&& final(self).bytes == old(self).bytes
                    &&& final(self).skipped == old(self).skipped
                    &&& final(self).cancelled == old(self).cancelled
                    &&& final(self).failures@.len() == old(self).failures@.len() + 1
                    &&& final(self).failures@.drop_last() == old(self).failures@
                    &&& final(self).failures@.last().path == path
                    &&& final(self).failures@.last().kind == k
                },
            },
    {
        match outcome {
            ItemOutcome::Succeeded(n) => {
                self.succeeded = self.succeeded + 1;
                self.bytes = self.bytes + n;
            },
            ItemOutcome::Skipped => {
                self.skipped = self.skipped + 1;
            },
            ItemOutcome::Cancelled => {
                self.cancelled = self.cancelled + 1;
            },
            ItemOutcome::Failed(k) => {
                self.failures.push(ItemFailure { path, kind: k });
                assert(self.failures@.drop_last() =~= old(self).failures@);
            },
        }
    }

    /// Success where no item failed, Failure where items failed and none
    /// succeeded, Partial otherwise.
    pub fn status(&self) -> (r: Status)
        ensures
            r == (if self.failures@.len() == 0 {
                Status::Success
            } else if self.succeeded == 0 {
                Status::Failure
            } else {
                Status::Partial
            }),
    {
        if self.failures.len() == 0 {
            Status::Success
        } else if self.succeeded == 0 {
            Status::Failure
        } else {
            Status::Partial
        }
    }
}

proof fn lemma_sums_nonneg(outcomes: Seq<ItemOutcome>, i: int)
    requires
        0 <= i <= outcomes.len(),
    ensures
        0 <= bytes_of(outcomes.subrange(0, i)) <= bytes_of(outcomes),
        0 <= count_of(outcomes.subrange(0, i), |o: ItemOutcome| is_success(o)) <= i,
        0 <= count_of(outcomes.subrange(0, i), |o: ItemOutcome| is_skip(o)) <= i,
        0 <= count_of(outcomes.subrange(0, i), |o: ItemOutcome| is_cancel(o)) <= i,
    decreases outcomes.len() - i,
{
    if i < outcomes.len() {
        lemma_sums_nonneg(outcomes, i + 1);
        assert(outcomes.subrange(0, i + 1).drop_last() =~= outcomes.subrange(0, i));
    } else {
        assert(outcomes.subrange(0, i) =~= outcomes);
    }
    lemma_counts_bounded(outcomes.subrange(0, i));
}

proof fn lemma_counts_bounded(outcomes: Seq<ItemOutcome>)
    ensures
        0 <= bytes_of(outcomes),
        0 <= count_of(outcomes, |o: ItemOutcome| is_success(o)) <= outcomes.len(),
        0 <= count_of(outcomes, |o: ItemOutcome| is_skip(o)) <= outcomes.len(),
        0 <= count_of(outcomes, |o: ItemOutcome| is_cancel(o)) <= outcomes.len(),
    decreases outcomes.len(),
{
    if outcomes.len() > 0 {
        lemma_counts_bounded(outcomes.drop_last());
    }
}

/// The summary of a batch whose items, at `paths`, ended as `outcomes`:
/// the items that succeeded and were skipped are counted, each failure is
/// listed, and the bytes written are added up.
pub fn summarize(paths: &Vec<Vec<u8>>, outcomes: &Vec<ItemOutcome>) -> (r: Summary)
    requires
        paths@.len() == outcomes@.len(),
        outcomes@.len() < u64::MAX,
        bytes_of(outcomes@) <= u64::MAX,
    ensures
        r.sums(crate::name::views(paths@), outcomes@),
{
    let mut s = Summary::new();
    let mut i: usize = 0;
    assert(failure_views(s.failures@) =~= Seq::empty());
    while i < outcomes.len()
        invariant
            i <= outcomes@.len(),
            paths@.len() == outcomes@.len(),
            outcomes@.len() < u64::MAX,
            bytes_of(outcomes@) <= u64::MAX,
            s.sums(crate::name::views(paths@).subrange(0, i as int), outcomes@.subrange(0, i as int)),
        decreases outcomes@.len() - i,
    {
        proof {
            lemma_sums_nonneg(outcomes@, i + 1);
            lemma_counts_bounded(outcomes@.subrange(0, i as int));
        }
        let o = outcomes[i];
        let ghost pre = outcomes@.subrange(0, i as int);
        let ghost next = outcomes@.subrange(0, i + 1);
        assert(next.drop_last() =~= pre);
        let ghost vp = crate::name::views(paths@);
        assert(vp.subrange(0, i + 1).drop_last() =~= vp.subrange(0, i as int));
        assert(vp.subrange(0, i + 1).last() == paths@[i as int]@);
        let ghost old_f = s.failures@;
        let path = crate::name::copy_bytes(&paths[i]);
        s.record(path, o);
        assert(failure_views(s.failures@) =~= failures_of(vp.subrange(0, i + 1), next)) by {
            if o is Failed {
                assert(failure_views(s.failures@) =~= failure_views(old_f).push(
                    (paths@[i as int]@, s.failures@.last().kind),
                ));
            } else {
                assert(failure_views(s.failures@) =~= failure_views(old_f));
            }
        }
        i += 1;
    }
    assert(outcomes@.subrange(0, outcomes@.len() as int) =~= outcomes@);
    assert(crate::name::views(paths@).subrange(0, paths@.len() as int) =~= crate::name::views(paths@));
    s
}

} // verus!
