//! The schedule of periodic cleanup.
//!
//! One task runs every pass that is due, in order, under one lock that it
//! waits for: retention first, whose deletions make the orphans that garbage
//! collection then sweeps. All passes are due at boot, so that a process that
//! restarts more often than its interval still cleans.
//!
//! Times are counted in units of the caller's choice from a moment of its
//! choice.

use vstd::prelude::*;

use crate::order;

verus! {

/// When the passes are due.
#[derive(Debug)]
pub struct Schedule {
    /// When each pass runs next.
    pub due: Vec<u64>,
    /// How long after its start each pass is due again.
    pub intervals: Vec<u64>,
}

/// What the cleanup task is doing.
#[derive(Debug, Clone, Copy, PartialEq, Eq, Structural)]
pub enum Phase {
    /// Sleeping until a pass is due.
    Sleep,
    /// Waiting for the cleanup lock.
    WaitForLock,
    /// Running the passes that are due, holding the lock.
    Run,
    /// Over.
    Stop,
}

/// How a phase ended.
#[derive(Debug, Clone, Copy, PartialEq, Eq, Structural)]
pub enum Ended {
    /// It came to its end: the time was up, the lock was got, the passes ran.
    Through,
    /// The task was cancelled.
    Cancelled,
}

/// What follows a phase. Cancelling stops either wait; passes run to their end.
pub open spec fn phase_after(phase: Phase, ended: Ended) -> Phase {
    match (phase, ended) {
        (Phase::Sleep, Ended::Through) => Phase::WaitForLock,
        (Phase::WaitForLock, Ended::Through) => Phase::Run,
        (Phase::Run, _) => Phase::Sleep,
        _ => Phase::Stop,
    }
}

/// What follows a phase.
pub fn next_phase(phase: Phase, ended: Ended) -> (r: Phase)
    ensures
        r == phase_after(phase, ended),
{
    match phase {
        Phase::Sleep => match ended {
            Ended::Through => Phase::WaitForLock,
            Ended::Cancelled => Phase::Stop,
        },
        Phase::WaitForLock => match ended {
            Ended::Through => Phase::Run,
            Ended::Cancelled => Phase::Stop,
        },
        Phase::Run => Phase::Sleep,
        Phase::Stop => Phase::Stop,
    }
}

/// The smallest of the times.
pub open spec fn earliest(due: Seq<u64>) -> Option<u64>
    decreases due.len(),
{
    if due.len() == 0 {
        None
    } else {
        match earliest(due.drop_last()) {
            Some(t) => if due.last() < t {
                Some(due.last())
            } else {
                Some(t)
            },
            None => Some(due.last()),
        }
    }
}

/// The passes that are due, in order.
pub open spec fn due_passes(due: Seq<u64>, now: u64) -> Seq<int>
    decreases due.len(),
{
    if due.len() == 0 {
        Seq::empty()
    } else {
        let before = due_passes(due.drop_last(), now);
        if due.last() <= now {
            before.push(due.len() - 1)
        } else {
            before
        }
    }
}

/// When the passes are due once those due now have been started.
pub open spec fn rescheduled(due: Seq<u64>, intervals: Seq<u64>, now: u64) -> Seq<u64> {
    Seq::new(
        due.len(),
        |i: int|
            if due[i] <= now {
                (now + intervals[i]) as u64
            } else {
                due[i]
            },
    )
}

impl Schedule {
    /// Each pass has an interval.
    pub open spec fn well_formed(&self) -> bool {
        self.due@.len() == self.intervals@.len()
    }

    /// A schedule on which every pass is due at once.
    pub fn new(intervals: Vec<u64>, now: u64) -> (r: Schedule)
        ensures
            r.well_formed(),
            r.intervals == intervals,
            forall|i: int| 0 <= i < r.due@.len() ==> #[trigger] r.due@[i] == now,
    {
        let mut due: Vec<u64> = Vec::new();
        let mut i: usize = 0;
        while i < intervals.len()
            invariant
                i <= intervals@.len(),
                due@.len() == i,
                forall|k: int| 0 <= k < i ==> #[trigger] due@[k] == now,
            decreases intervals@.len() - i,
        {
            due.push(now);
            i = i + 1;
        }
        Schedule { due, intervals }
    }

    /// When the next pass is due; never where there is none.
    pub fn next_wake(&self) -> (r: Option<u64>)
        ensures
            r == earliest(self.due@),
    {
        let mut r: Option<u64> = None;
        let mut i: usize = 0;
        while i < self.due.len()
            invariant
                i <= self.due@.len(),
                r == earliest(self.due@.take(i as int)),
            decreases self.due@.len() - i,
        {
            proof {
                assert(self.due@.take(i + 1).drop_last() =~= self.due@.take(i as int));
            }
            r = match r {
                Some(t) => if self.due[i] < t {
                    Some(self.due[i])
                } else {
                    Some(t)
                },
                None => Some(self.due[i]),
            };
            i = i + 1;
        }
        proof {
            assert(self.due@.take(i as int) =~= self.due@);
        }
        r
    }

    /// Starts a cycle: gives the passes that are due, in the order in which they
    /// run, and puts each an interval ahead. The cycle runs all of them, also
    /// where one fails.
    pub fn begin_cycle(&mut self, now: u64) -> (r: Vec<usize>)
        requires
            old(self).well_formed(),
            forall|i: int|
                0 <= i < old(self).intervals@.len() ==> now + #[trigger] old(self).intervals@[i]
                    <= u64::MAX,
        ensures
            final(self).well_formed(),
            final(self).intervals == old(self).intervals,
            final(self).due@ == rescheduled(old(self).due@, old(self).intervals@, now),
            order::ints(r@) == due_passes(old(self).due@, now),
    {
        let ghost start = self.due@;
        let ghost ivs = self.intervals@;
        let n: usize = self.due.len();
        let mut due: Vec<u64> = Vec::new();
        let mut r: Vec<usize> = Vec::new();
        let mut i: usize = 0;
        proof {
            assert(order::ints(r@) =~= due_passes(start.take(0), now));
        }
        while i < n
            invariant
                i <= n,
                n == start.len(),
                self.due@ == start,
                self.intervals@ == ivs,
                ivs.len() == n,
                forall|k: int| 0 <= k < n ==> now + #[trigger] ivs[k] <= u64::MAX,
                due@.len() == i,
                forall|k: int|
                    0 <= k < i ==> #[trigger] due@[k] == (if start[k] <= now {
                        (now + ivs[k]) as u64
                    } else {
                        start[k]
                    }),
                order::ints(r@) == due_passes(start.take(i as int), now),
            decreases n - i,
        {
            let ghost before = r@;
            proof {
                assert(start.take(i + 1).drop_last() =~= start.take(i as int));
            }
            if self.due[i] <= now {
                due.push(now + self.intervals[i]);
                r.push(i);
                proof {
                    assert(order::ints(r@) =~= order::ints(before).push(i as int));
                }
            } else {
                due.push(self.due[i]);
            }
            i = i + 1;
        }
        proof {
            assert(start.take(i as int) =~= start);
            assert(due@ =~= rescheduled(start, ivs, now));
        }
        self.due = due;
        r
    }
}

proof fn lemma_due_passes(due: Seq<u64>, now: u64)
    ensures
        forall|k: int|
            0 <= k < due_passes(due, now).len() ==> 0 <= #[trigger] due_passes(due, now)[k]
                < due.len() && due[due_passes(due, now)[k]] <= now,
        forall|i: int|
            0 <= i < due.len() && #[trigger] due[i] <= now ==> due_passes(due, now).contains(i),
        forall|j: int, k: int|
            0 <= j < k < due_passes(due, now).len() ==> #[trigger] due_passes(due, now)[j]
                < #[trigger] due_passes(due, now)[k],
    decreases due.len(),
{
    if due.len() > 0 {
        let front = due.drop_last();
        lemma_due_passes(front, now);
        let before = due_passes(front, now);
        let all = due_passes(due, now);
        assert forall|i: int| 0 <= i < due.len() && #[trigger] due[i] <= now implies all.contains(
            i,
        ) by {
            if i < front.len() {
                assert(front[i] <= now);
                let k = choose|k: int| 0 <= k < before.len() && before[k] == i;
                assert(all[k] == i);
            } else {
                assert(all[before.len() as int] == i);
            }
        }
        assert forall|k: int| 0 <= k < all.len() implies 0 <= #[trigger] all[k] < due.len()
            && due[all[k]] <= now by {
            if k < before.len() {
                assert(all[k] == before[k]);
                assert(front[before[k]] == due[before[k]]);
            }
        }
    }
}

/// A cycle runs each pass that is due once, in the order of the passes, and no
/// other.
pub proof fn cycle_runs_due_passes_in_order(due: Seq<u64>, now: u64)
    ensures
        forall|i: int|
            0 <= i < due.len() ==> (due_passes(due, now).contains(i) <==> #[trigger] due[i] <= now),
        forall|j: int, k: int|
            0 <= j < k < due_passes(due, now).len() ==> #[trigger] due_passes(due, now)[j]
                < #[trigger] due_passes(due, now)[k],
{
    lemma_due_passes(due, now);
}

/// At boot every pass runs.
pub proof fn all_passes_run_at_boot(due: Seq<u64>, now: u64)
    requires
        forall|i: int| 0 <= i < due.len() ==> #[trigger] due[i] == now,
    ensures
        due_passes(due, now) == order::positions(due.len()),
    decreases due.len(),
{
    if due.len() > 0 {
        let front = due.drop_last();
        assert forall|i: int| 0 <= i < front.len() implies #[trigger] front[i] == now by {
            assert(due[i] == now);
        }
        all_passes_run_at_boot(front, now);
        assert(due[due.len() - 1] == now);
        assert(due_passes(due, now) =~= order::positions(due.len()));
    } else {
        assert(due_passes(due, now) =~= order::positions(due.len()));
    }
}

/// Passes with the same interval that are due together are due together again.
pub proof fn equal_intervals_stay_in_step(
    due: Seq<u64>,
    intervals: Seq<u64>,
    now: u64,
    i: int,
    j: int,
)
    requires
        0 <= i < due.len(),
        0 <= j < due.len(),
        due[i] <= now,
        due[j] <= now,
        intervals[i] == intervals[j],
    ensures
        rescheduled(due, intervals, now)[i] == rescheduled(due, intervals, now)[j],
{
}

/// Waking no earlier than the schedule says, a cycle runs something: no pass is
/// passed over.
pub proof fn waking_runs_a_pass(due: Seq<u64>, now: u64)
    requires
        earliest(due) matches Some(t) && t <= now,
    ensures
        due_passes(due, now).len() > 0,
    decreases due.len(),
{
    if due.last() > now {
        waking_runs_a_pass(due.drop_last(), now);
    }
}

/// A pass with an interval is not due again before it is over, and one that
/// was not due keeps its time.
pub proof fn started_passes_are_put_ahead(due: Seq<u64>, intervals: Seq<u64>, now: u64, i: int)
    requires
        0 <= i < due.len(),
        now + intervals[i] <= u64::MAX,
    ensures
        due[i] <= now ==> rescheduled(due, intervals, now)[i] == now + intervals[i],
        due[i] > now ==> rescheduled(due, intervals, now)[i] == due[i],
{
}

/// Passes run only with the lock held, and a task cancelled in either wait runs
/// none.
pub proof fn passes_run_under_the_lock(phase: Phase, ended: Ended)
    ensures
        phase_after(phase, ended) == Phase::Run ==> phase == Phase::WaitForLock && ended
            == Ended::Through,
        phase != Phase::Run && ended == Ended::Cancelled ==> phase_after(phase, ended)
            == Phase::Stop,
{
}

} // verus!
