//! The accounting of a worker pool: how many submitted jobs have not finished
//! yet, and whether the pool still takes jobs.
//!
//! `join` waits until the counter is idle; closing the pool stops new
//! submissions while the jobs already queued still run and are counted off.
use vstd::prelude::*;

verus! {

/// The outstanding-job counter of a pool, and whether it is open.
pub struct JobCounter {
    outstanding: u64,
    open: bool,
}

impl View for JobCounter {
    type V = (nat, bool);

    closed spec fn view(&self) -> (nat, bool) {
        (self.outstanding as nat, self.open)
    }
}

impl JobCounter {
    /// An open counter with no outstanding job.
    pub fn new() -> (r: JobCounter)
        ensures
            r@ == (0nat, true),
    {
        JobCounter { outstanding: 0, open: true }
    }

    /// Counts a job in, where the pool is open; returns whether it was taken.
    pub fn submit(&mut self) -> (accepted: bool)
        ensures
            accepted == (old(self)@.1 && old(self)@.0 < u64::MAX),
            final(self)@ == if accepted {
                (old(self)@.0 + 1, true)
            } else {
                old(self)@
            },
    {
        if self.open && self.outstanding < u64::MAX {
            self.outstanding = self.outstanding + 1;
            true
        } else {
            false
        }
    }

    /// Counts a finished job off.
    pub fn finish(&mut self)
        requires
            old(self)@.0 > 0,
        ensures
            final(self)@ == ((old(self)@.0 - 1) as nat, old(self)@.1),
    {
        self.outstanding = self.outstanding - 1;
    }

    /// Stops taking jobs.
    pub fn close(&mut self)
        ensures
            final(self)@ == (old(self)@.0, false),
    {
        self.open = false;
    }

    /// Whether every job taken has finished: the condition `join` waits for.
    pub fn is_idle(&self) -> (r: bool)
        ensures
            r == (self@.0 == 0),
    {
        self.outstanding == 0
    }

    /// Whether the pool still takes jobs.
    pub fn is_open(&self) -> (r: bool)
        ensures
            r == self@.1,
    {
        self.open
    }

    /// The number of jobs taken and not finished.
    pub fn outstanding(&self) -> (r: u64)
        ensures
            r == self@.0,
    {
        self.outstanding
    }
}

/// How many entries of `steps` equal `b`.
pub open spec fn tally(steps: Seq<bool>, b: bool) -> nat
    decreases steps.len(),
{
    if steps.len() == 0 {
        0
    } else {
        tally(steps.drop_last(), b) + if steps.last() == b {
            1nat
        } else {
            0nat
        }
    }
}

/// Along a run of accepted submissions (`true`) and completions (`false`)
/// from a new counter, where `counts[i]` is the outstanding count before step
/// `i`, the count is the number of submissions less the number of
/// completions. So the counter is idle exactly when every submitted job has
/// finished: `join` returns at once when nothing was submitted, and after N
/// submissions only once all N jobs have finished.
pub proof fn lemma_idle_iff_all_finished(steps: Seq<bool>, counts: Seq<nat>)
    requires
        counts.len() == steps.len() + 1,
        counts[0] == 0,
        forall|i: int|
            0 <= i < steps.len() ==> if #[trigger] steps[i] {
                counts[i + 1] == counts[i] + 1
            } else {
                counts[i] > 0 && counts[i + 1] == counts[i] - 1
            },
    ensures
        counts.last() + tally(steps, false) == tally(steps, true),
        counts.last() == 0 <==> tally(steps, false) == tally(steps, true),
    decreases steps.len(),
{
    if steps.len() > 0 {
        let n = steps.len() - 1;
        assert forall|i: int| 0 <= i < steps.drop_last().len() implies if #[trigger] steps.drop_last()[i] {
            counts.drop_last()[i + 1] == counts.drop_last()[i] + 1
        } else {
            counts.drop_last()[i] > 0 && counts.drop_last()[i + 1] == counts.drop_last()[i] - 1
        } by {
            assert(steps.drop_last()[i] == steps[i]);
        }
        lemma_idle_iff_all_finished(steps.drop_last(), counts.drop_last());
        assert(steps[n] == steps.last());
    }
}

} // verus!
