//! Bounded retry policy for exclusive lock-file acquisition.
//!
//! Acquiring a lock file means creating it exclusively; when the file already
//! exists, the host waits for a filesystem change (bounded by a timeout) and
//! tries again, up to a fixed retry budget.  The decision logic lives here and
//! is verified; the filesystem attempt and the bounded wait are performed by
//! the caller, which feeds each attempt's outcome back in.

use vstd::prelude::*;

verus! {

/// How many times an exclusive-creation attempt is retried after the first
/// failure before the host gives up.
pub const DEFAULT_LOCK_RETRY_BUDGET: usize = 11;

/// What to do after one exclusive-creation attempt.
#[derive(Clone, Copy, Debug, PartialEq, Eq, Structural)]
pub enum LockStep {
    /// The attempt succeeded; the lock file is held.
    Acquired,
    /// The attempt failed and the budget is not exhausted: wait for a
    /// filesystem change (bounded by a timeout), then try again.
    Retry,
    /// The attempt failed and the budget is exhausted: give up.
    GiveUp,
}

/// Decides the next step after an exclusive-creation attempt, given whether
/// the attempt succeeded and how many retries were already spent.
pub fn lock_step(acquired: bool, retries_used: usize, retry_budget: usize) -> (r: LockStep)
    ensures
        r == LockStep::Acquired <==> acquired,
        r == LockStep::Retry <==> !acquired && retries_used < retry_budget,
        r == LockStep::GiveUp <==> !acquired && retries_used >= retry_budget,
{
    if acquired {
        LockStep::Acquired
    } else if retries_used < retry_budget {
        LockStep::Retry
    } else {
        LockStep::GiveUp
    }
}

/// Runs the lock acquisition policy over a recorded sequence of attempt
/// outcomes (`true` = the exclusive creation succeeded).  Returns the index of
/// the attempt that acquired the lock, or `None` when every attempt within the
/// budget failed.  At most `retry_budget + 1` attempts are ever consulted, so
/// the call always returns rather than waiting indefinitely.
pub fn lock_file_outcome(outcomes: &Vec<bool>, retry_budget: usize) -> (r: Option<usize>)
    requires
        retry_budget < outcomes@.len(),
    ensures
        match r {
            Some(i) => i <= retry_budget && outcomes@[i as int] && (forall|j: int|
                0 <= j < i ==> !outcomes@[j]),
            None => forall|j: int| 0 <= j <= retry_budget ==> !outcomes@[j],
        },
{
    let mut i: usize = 0;
    loop
        invariant
            i <= retry_budget + 1,
            retry_budget < outcomes@.len(),
            forall|j: int| 0 <= j < i ==> !outcomes@[j],
        decreases retry_budget + 1 - i,
    {
        if i > retry_budget {
            return None;
        }
        let step = lock_step(outcomes[i], i, retry_budget);
        match step {
            LockStep::Acquired => {
                return Some(i);
            },
            LockStep::Retry => {
                i = i + 1;
            },
            LockStep::GiveUp => {
                return None;
            },
        }
    }
}

/// A lock path that becomes free within the retry budget is acquired, and one
/// that never becomes free is given up on after at most `retry_budget + 1`
/// attempts: the outcome is `Some` exactly when some attempt within the budget
/// succeeds.
pub proof fn lemma_lock_bounded_wait(outcomes: Seq<bool>, retry_budget: usize, r: Option<usize>)
    requires
        retry_budget < outcomes.len(),
        match r {
            Some(i) => i <= retry_budget && outcomes[i as int] && (forall|j: int|
                0 <= j < i ==> !outcomes[j]),
            None => forall|j: int| 0 <= j <= retry_budget ==> !outcomes[j],
        },
    ensures
        r is Some <==> exists|i: int| 0 <= i <= retry_budget && outcomes[i],
{
    if r is Some {
        let i = r->0;
        assert(0 <= i <= retry_budget && outcomes[i as int]);
    }
}

} // verus!
