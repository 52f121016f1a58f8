//! The shared scan state: the frontier of pending work items, the in-flight
//! counter that makes termination detection sound, a cancellation flag, and
//! the match aggregator.
//!
//! The in-flight counter counts every work item that has been seeded or
//! forwarded back by a worker and whose unit of work is not yet complete:
//! it equals the number of items still queued plus the number popped but not
//! yet fully enumerated. The scan is complete exactly when the frontier is
//! empty and nothing is outstanding, which is exactly when the counter is
//! zero; a merely empty frontier is not a valid exit signal, since an
//! outstanding unit may still forward fresh items.

use vstd::prelude::*;

verus! {

/// The shared state of one scan: a frontier of pending items of any payload
/// type, plus the accounting that decides termination.
pub struct Scan<T> {
    queue: Vec<T>,
    outstanding: usize,
    cancelled: bool,
}

impl<T> Scan<T> {
    /// The pending items, in stack order: the next item popped is the last.
    pub closed spec fn frontier(&self) -> Seq<T> {
        self.queue@
    }

    /// How many items have been popped whose unit of work is not complete.
    pub closed spec fn outstanding_units(&self) -> nat {
        self.outstanding as nat
    }

    /// Whether the scan has been cancelled from outside.
    pub closed spec fn is_cancelled(&self) -> bool {
        self.cancelled
    }

    /// The in-flight counter: queued items plus popped-but-incomplete units.
    /// It is a count, so it can never go negative.
    pub open spec fn in_flight(&self) -> nat {
        self.frontier().len() + self.outstanding_units()
    }

    /// The accounting stays within machine bounds.
    pub open spec fn wf(&self) -> bool {
        self.in_flight() <= usize::MAX
    }

    /// No unit is queued or outstanding: no worker can ever produce more
    /// work, so the scan is complete.
    pub open spec fn quiescent(&self) -> bool {
        self.frontier().len() == 0 && self.outstanding_units() == 0
    }

    /// A scan starts with an empty frontier and nothing in flight.
    pub fn new() -> (s: Scan<T>)
        ensures
            s.frontier() =~= Seq::<T>::empty(),
            s.outstanding_units() == 0,
            !s.is_cancelled(),
            s.wf(),
    {
        Scan { queue: Vec::new(), outstanding: 0, cancelled: false }
    }

    /// The coordinator's refill step: a newly seeded or forwarded item
    /// enters the frontier, raising the in-flight count by one.
    pub fn push_item(&mut self, item: T)
        requires
            old(self).wf(),
            old(self).in_flight() < usize::MAX,
        ensures
            final(self).frontier() == old(self).frontier().push(item),
            final(self).outstanding_units() == old(self).outstanding_units(),
            final(self).is_cancelled() == old(self).is_cancelled(),
            final(self).wf(),
    {
        self.queue.push(item);
    }

    /// A worker draws a unit of work. On a cancelled scan nothing is handed
    /// out; otherwise the last queued item is popped and becomes
    /// outstanding, leaving the in-flight count unchanged.
    pub fn take_work(&mut self) -> (r: Option<T>)
        requires
            old(self).wf(),
        ensures
            final(self).wf(),
            final(self).is_cancelled() == old(self).is_cancelled(),
            old(self).is_cancelled() || old(self).frontier().len() == 0 ==> {
                &&& r is None
                &&& final(self).frontier() == old(self).frontier()
                &&& final(self).outstanding_units() == old(self).outstanding_units()
            },
            !old(self).is_cancelled() && old(self).frontier().len() > 0 ==> {
                &&& r == Some(old(self).frontier().last())
                &&& final(self).frontier() == old(self).frontier().drop_last()
                &&& final(self).outstanding_units() == old(self).outstanding_units() + 1
                &&& final(self).in_flight() == old(self).in_flight()
            },
    {
        if self.cancelled {
            return None;
        }
        match self.queue.pop() {
            Some(item) => {
                self.outstanding = self.outstanding + 1;
                Some(item)
            },
            None => None,
        }
    }

    /// A worker signals that one unit of work is fully enumerated: the
    /// in-flight count drops by one, whatever the unit's outcome was.
    pub fn complete_unit(&mut self)
        requires
            old(self).wf(),
            old(self).outstanding_units() >= 1,
        ensures
            final(self).frontier() == old(self).frontier(),
            final(self).outstanding_units() == old(self).outstanding_units() - 1,
            final(self).is_cancelled() == old(self).is_cancelled(),
            final(self).wf(),
    {
        self.outstanding = self.outstanding - 1;
    }

    /// An external interrupt: the scan is to wind down without waiting for
    /// the in-flight count to reach zero. Workers observe this through
    /// `take_work` and `is_done`.
    pub fn cancel(&mut self)
        requires
            old(self).wf(),
        ensures
            final(self).frontier() == old(self).frontier(),
            final(self).outstanding_units() == old(self).outstanding_units(),
            final(self).is_cancelled(),
            final(self).wf(),
    {
        self.cancelled = true;
    }

    /// The termination test: true exactly when the scan was cancelled or no
    /// unit is queued or outstanding.
    pub fn is_done(&self) -> (r: bool)
        requires
            self.wf(),
        ensures
            r == (self.is_cancelled() || self.quiescent()),
    {
        self.cancelled || (self.queue.is_empty() && self.outstanding == 0)
    }

    /// How many units have been taken and not yet completed.
    pub fn outstanding_count(&self) -> (n: usize)
        ensures
            n == self.outstanding_units(),
    {
        self.outstanding
    }

    /// The in-flight counter as a machine integer.
    pub fn in_flight_count(&self) -> (n: usize)
        requires
            self.wf(),
        ensures
            n == self.in_flight(),
    {
        self.queue.len() + self.outstanding
    }

    /// Law: the in-flight counter never goes negative — it is a count — and
    /// on an uncancelled scan it is zero exactly when the scan is complete,
    /// the moment the coordinator may move to draining and release the
    /// workers.
    pub proof fn lemma_in_flight_zero_iff_done(&self)
        ensures
            self.in_flight() >= 0,
            (self.in_flight() == 0) <==> self.quiescent(),
    {
    }
}

/// The match aggregator: counts of matching directories, matching files,
/// and absorbed per-entry enumeration failures, mutated only one increment
/// at a time and read once at the end of the scan.
pub struct Aggregator {
    dirs: usize,
    files: usize,
    errors: usize,
}

impl Aggregator {
    /// Directories whose name matched.
    pub closed spec fn dirs_matched(&self) -> nat {
        self.dirs as nat
    }

    /// Files whose name matched.
    pub closed spec fn files_matched(&self) -> nat {
        self.files as nat
    }

    /// Enumeration failures absorbed without aborting the scan.
    pub closed spec fn errors_seen(&self) -> nat {
        self.errors as nat
    }

    pub fn new() -> (a: Aggregator)
        ensures
            a.dirs_matched() == 0,
            a.files_matched() == 0,
            a.errors_seen() == 0,
    {
        Aggregator { dirs: 0, files: 0, errors: 0 }
    }

    /// Record one matching entry, a directory or a file.
    pub fn record_match(&mut self, is_directory: bool)
        requires
            is_directory ==> old(self).dirs_matched() < usize::MAX,
            !is_directory ==> old(self).files_matched() < usize::MAX,
        ensures
            final(self).dirs_matched() == old(self).dirs_matched() + if is_directory {
                1int
            } else {
                0int
            },
            final(self).files_matched() == old(self).files_matched() + if is_directory {
                0int
            } else {
                1int
            },
            final(self).errors_seen() == old(self).errors_seen(),
    {
        if is_directory {
            self.dirs = self.dirs + 1;
        } else {
            self.files = self.files + 1;
        }
    }

    /// Record one absorbed enumeration failure; no error is swallowed
    /// without at least this increment.
    pub fn record_error(&mut self)
        requires
            old(self).errors_seen() < usize::MAX,
        ensures
            final(self).dirs_matched() == old(self).dirs_matched(),
            final(self).files_matched() == old(self).files_matched(),
            final(self).errors_seen() == old(self).errors_seen() + 1,
    {
        self.errors = self.errors + 1;
    }

    /// The final report: matching directories and matching files. Read once
    /// the scan is complete.
    pub fn summary(&self) -> (r: (usize, usize))
        ensures
            r.0 == self.dirs_matched(),
            r.1 == self.files_matched(),
    {
        (self.dirs, self.files)
    }

    /// How many per-entry failures the scan absorbed.
    pub fn error_count(&self) -> (n: usize)
        ensures
            n == self.errors_seen(),
    {
        self.errors
    }
}

} // verus!
