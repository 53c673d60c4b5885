//! Bookkeeping of a batch of decode tasks run under a bounded window.
//!
//! The driver asks which tasks may start, runs them, and reports each
//! completion in whatever order the tasks finish. Every completion advances
//! the progress by one; a failed one is reported as well, and the batch goes on.

use vstd::prelude::*;

verus! {

/// What the driver does on one completion.
#[derive(Debug, Clone, Copy, PartialEq, Eq, Structural)]
pub enum Action {
    /// Advance the progress by one.
    Advance,
    /// Report the failed task, then advance the progress by one.
    ReportAndAdvance,
}

/// The state of a batch: tasks `0..dispatched` have been started, and
/// `completed` of them have finished, `failed` of those with an error.
pub struct Batch {
    total: usize,
    limit: usize,
    dispatched: usize,
    completed: usize,
    failed: usize,
}

/// The mathematical content of a [`Batch`].
pub ghost struct BatchView {
    pub total: nat,
    pub limit: nat,
    pub dispatched: nat,
    pub completed: nat,
    pub failed: nat,
}

impl BatchView {
    /// The counters are consistent and at most `limit` tasks are in flight.
    pub open spec fn wf(self) -> bool {
        &&& self.limit > 0
        &&& self.failed <= self.completed
        &&& self.completed <= self.dispatched
        &&& self.dispatched <= self.total
        &&& self.dispatched - self.completed <= self.limit
    }

    /// Tasks started and not yet finished.
    pub open spec fn in_flight(self) -> nat {
        (self.dispatched - self.completed) as nat
    }

    /// The state after starting every task that the window lets start now.
    pub open spec fn fill(self) -> BatchView {
        BatchView {
            dispatched: if self.total < self.completed + self.limit {
                self.total
            } else {
                self.completed + self.limit
            },
            ..self
        }
    }

    /// The state after one task finishes, successfully or not.
    pub open spec fn complete(self, succeeded: bool) -> BatchView {
        BatchView {
            completed: self.completed + 1,
            failed: if succeeded {
                self.failed
            } else {
                self.failed + 1
            },
            ..self
        }
    }

    /// The driver's loop: fill the window, then take the next completion,
    /// whose outcome is the next of `outcomes`.
    pub open spec fn drive(self, outcomes: Seq<bool>) -> BatchView
        decreases outcomes.len(),
    {
        if outcomes.len() == 0 {
            self
        } else {
            self.fill().complete(outcomes[0]).drive(outcomes.drop_first())
        }
    }
}

/// The fresh state of a batch of `total` tasks with window `limit`.
pub open spec fn start_view(total: nat, limit: nat) -> BatchView {
    BatchView { total, limit, dispatched: 0, completed: 0, failed: 0 }
}

/// How many of `outcomes` are failures.
pub open spec fn count_failed(outcomes: Seq<bool>) -> nat
    decreases outcomes.len(),
{
    if outcomes.len() == 0 {
        0
    } else {
        (if outcomes[0] {
            0nat
        } else {
            1nat
        }) + count_failed(outcomes.drop_first())
    }
}

impl View for Batch {
    type V = BatchView;

    closed spec fn view(&self) -> BatchView {
        BatchView {
            total: self.total as nat,
            limit: self.limit as nat,
            dispatched: self.dispatched as nat,
            completed: self.completed as nat,
            failed: self.failed as nat,
        }
    }
}

impl Batch {
    /// A batch of `total` tasks of which at most `limit` run at once.
    pub fn new(total: usize, limit: usize) -> (r: Batch)
        requires
            limit > 0,
        ensures
            r@ == start_view(total as nat, limit as nat),
            r@.wf(),
    {
        Batch { total, limit, dispatched: 0, completed: 0, failed: 0 }
    }

    /// Starts every task that the window lets start now, and returns the range
    /// of their indices.
    pub fn start_ready(&mut self) -> (r: (usize, usize))
        requires
            old(self)@.wf(),
        ensures
            final(self)@ == old(self)@.fill(),
            final(self)@.wf(),
            r.0 == old(self)@.dispatched,
            r.1 == final(self)@.dispatched,
    {
        let end = if self.total - self.completed <= self.limit {
            self.total
        } else {
            self.completed + self.limit
        };
        let first = self.dispatched;
        self.dispatched = end;
        (first, end)
    }

    /// Records the completion of a task in flight, and says what to do.
    pub fn complete(&mut self, succeeded: bool) -> (r: Action)
        requires
            old(self)@.wf(),
            old(self)@.in_flight() > 0,
        ensures
            final(self)@ == old(self)@.complete(succeeded),
            final(self)@.wf(),
            r == (if succeeded {
                Action::Advance
            } else {
                Action::ReportAndAdvance
            }),
    {
        self.completed = self.completed + 1;
        if succeeded {
            Action::Advance
        } else {
            self.failed = self.failed + 1;
            Action::ReportAndAdvance
        }
    }

    /// Whether every task has finished.
    pub fn is_finished(&self) -> (r: bool)
        ensures
            r == (self@.completed == self@.total),
    {
        self.completed == self.total
    }

    /// Tasks started and not yet finished.
    pub fn in_flight(&self) -> (r: usize)
        requires
            self@.wf(),
        ensures
            r == self@.in_flight(),
    {
        self.dispatched - self.completed
    }

    /// The progress: how many tasks have finished.
    pub fn progress(&self) -> (r: usize)
        ensures
            r == self@.completed,
    {
        self.completed
    }

    /// How many finished tasks failed.
    pub fn failures(&self) -> (r: usize)
        ensures
            r == self@.failed,
    {
        self.failed
    }
}

/// Isolation of failures: from a well-formed state, the driver's loop over
/// one outcome for each unfinished task always has a task in flight when it
/// waits for a completion, and ends with every task finished, the progress at
/// the total, and exactly the failed outcomes counted as failures.
pub proof fn lemma_drive_finishes(v: BatchView, outcomes: Seq<bool>)
    requires
        v.wf(),
        outcomes.len() == v.total - v.completed,
    ensures
        v.drive(outcomes) == (BatchView {
            dispatched: v.total,
            completed: v.total,
            failed: v.failed + count_failed(outcomes),
            ..v
        }),
        forall|k: int|
            0 <= k < outcomes.len() ==> (#[trigger] v.drive(outcomes.take(k))).fill().in_flight()
                > 0,
    decreases outcomes.len(),
{
    if outcomes.len() > 0 {
        let w = v.fill().complete(outcomes[0]);
        let rest = outcomes.drop_first();
        lemma_drive_finishes(w, rest);
        assert forall|k: int| 0 <= k < outcomes.len() implies (#[trigger] v.drive(
            outcomes.take(k),
        )).fill().in_flight() > 0 by {
            if k > 0 {
                assert(outcomes.take(k).drop_first() =~= rest.take(k - 1));
                assert(w.drive(rest.take(k - 1)).fill().in_flight() > 0);
            } else {
                assert(outcomes.take(k) =~= Seq::<bool>::empty());
            }
        }
    }
}

/// A batch of `total` tasks in which the outcomes come in as `outcomes`
/// finishes with progress `total` and failures counted exactly; in particular
/// one failed task leaves the other `total - 1` counted as successes.
pub proof fn lemma_batch_isolation(total: nat, limit: nat, outcomes: Seq<bool>)
    requires
        limit > 0,
        outcomes.len() == total,
    ensures
        start_view(total, limit).drive(outcomes).completed == total,
        start_view(total, limit).drive(outcomes).failed == count_failed(outcomes),
        start_view(total, limit).drive(outcomes).completed - start_view(total, limit).drive(
            outcomes,
        ).failed == total - count_failed(outcomes),
{
    lemma_drive_finishes(start_view(total, limit), outcomes);
}

} // verus!
