//! The schedule of the background progress reporter.
//!
//! The reporter runs on a thread of its own and notifies a callback of its
//! progress at a fixed interval. The decisions live here; the thread, the
//! callback invocation and the sleep between notifications are the caller's.
use vstd::prelude::*;

verus! {

/// How many progress notifications a full run makes.
pub const PROGRESS_STEPS: u64 = 11;

/// The progress added by each notification after the first.
pub const PROGRESS_STRIDE: i64 = 10;

/// Milliseconds to wait after each notification.
pub const PROGRESS_INTERVAL_MS: u64 = 1000;

/// The values that a full run notifies, in order: 0, 10, ..., 100.
pub open spec fn progress_schedule() -> Seq<i64> {
    Seq::new(PROGRESS_STEPS as nat, |i: int| (i * PROGRESS_STRIDE) as i64)
}

/// The state of one reporter run.
pub struct ProgressWorker {
    next: u64,
    aborted: bool,
}

impl ProgressWorker {
    /// The values notified so far, in order.
    pub closed spec fn emitted(&self) -> Seq<i64> {
        progress_schedule().take(self.next as int)
    }

    /// Whether the run will make no further notification.
    pub closed spec fn finished(&self) -> bool {
        self.aborted || self.next >= PROGRESS_STEPS
    }

    /// Whether the run stopped early because a notification failed.
    pub closed spec fn was_aborted(&self) -> bool {
        self.aborted
    }

    /// The reporter's invariant.
    pub closed spec fn wf(&self) -> bool {
        self.next <= PROGRESS_STEPS
    }

    /// A run that has notified nothing yet.
    pub fn new() -> (r: Self)
        ensures
            r.wf(),
            r.emitted() == Seq::<i64>::empty(),
            !r.finished(),
            !r.was_aborted(),
    {
        let r = ProgressWorker { next: 0, aborted: false };
        assert(r.emitted() =~= Seq::<i64>::empty());
        r
    }

    /// The next value to notify, or `None` once the run is over. After each
    /// value the caller invokes the callback with it and then waits
    /// `PROGRESS_INTERVAL_MS`.
    pub fn next_progress(&mut self) -> (r: Option<i64>)
        requires
            old(self).wf(),
        ensures
            final(self).wf(),
            final(self).was_aborted() == old(self).was_aborted(),
            old(self).finished() ==> r is None && final(self).emitted() == old(self).emitted()
                && final(self).finished(),
            !old(self).finished() ==> r == Some(progress_schedule()[old(self).emitted().len() as int])
                && final(self).emitted() == old(self).emitted().push(r.unwrap()),
    {
        if self.aborted || self.next >= PROGRESS_STEPS {
            return None;
        }
        let v = self.next as i64 * PROGRESS_STRIDE;
        self.next = self.next + 1;
        assert(self.emitted() =~= old(self).emitted().push(v));
        Some(v)
    }

    /// Records that a notification failed: the run stops and makes no further
    /// notification.
    pub fn abort(&mut self)
        requires
            old(self).wf(),
        ensures
            final(self).wf(),
            final(self).finished(),
            final(self).was_aborted(),
            final(self).emitted() == old(self).emitted(),
    {
        self.aborted = true;
    }

    /// Whether the run will make no further notification.
    pub fn is_finished(&self) -> (r: bool)
        ensures
            r == self.finished(),
    {
        self.aborted || self.next >= PROGRESS_STEPS
    }
}

/// A run that was not aborted notifies exactly the schedule: eleven values,
/// starting at 0 and rising by 10 up to 100.
pub proof fn lemma_complete_run_notifies_schedule(w: ProgressWorker)
    requires
        w.wf(),
        w.finished(),
        !w.was_aborted(),
    ensures
        w.emitted() == progress_schedule(),
        w.emitted().len() == PROGRESS_STEPS,
        w.emitted()[0] == 0,
        w.emitted()[PROGRESS_STEPS - 1] == 100,
        forall|i: int, j: int| 0 <= i < j < w.emitted().len() ==> w.emitted()[i] < w.emitted()[j],
{
    assert(w.emitted() =~= progress_schedule());
}

} // verus!
