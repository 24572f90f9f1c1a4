//! Bounded retry: try, and on failure pause and try again, a fixed number of
//! times at most.

use vstd::prelude::*;

verus! {

/// The number of attempts that an operation gets where nothing else is said.
pub const DEFAULT_ATTEMPTS: u32 = 10;

/// What to do after a failed attempt.
#[derive(Clone, Copy, Debug, PartialEq, Eq, Structural)]
pub enum Verdict {
    /// Pause, then try once more.
    Again,
    /// Every permitted attempt has failed.
    GiveUp,
}

/// The number of attempts that a limit of `limit` stands for: at least one.
pub open spec fn attempts_allowed(limit: u32) -> nat {
    if limit == 0 {
        1
    } else {
        limit as nat
    }
}

/// The verdict after the `failed`-th attempt in a row has failed.
pub open spec fn verdict_after(limit: u32, failed: nat) -> Verdict {
    if failed < attempts_allowed(limit) {
        Verdict::Again
    } else {
        Verdict::GiveUp
    }
}

/// Decides after a failed attempt, `failed_before` earlier attempts having
/// failed already. Says the verdict and the new count of failures.
pub fn after_failure(limit: u32, failed_before: u32) -> (r: (Verdict, u32))
    ensures
        r.0 == verdict_after(limit, failed_before as nat + 1),
        r.0 == Verdict::Again ==> r.1 == failed_before + 1,
        r.0 == Verdict::GiveUp ==> r.1 == failed_before,
{
    let allowed: u32 = if limit == 0 {
        1
    } else {
        limit
    };
    if failed_before < allowed - 1 {
        (Verdict::Again, failed_before + 1)
    } else {
        (Verdict::GiveUp, failed_before)
    }
}

/// The failure of the last attempt, with the number of attempts made.
pub struct Exhausted<E> {
    pub last: E,
    pub attempts: u32,
}

/// Runs `op` until it succeeds, `attempts_allowed(limit)` times at most, and
/// calls `pause` between two attempts.
///
/// What comes back is what the last call of `op` returned: the first success,
/// or, after the last permitted attempt, its failure.
pub fn retry<T, E, Op: Fn() -> Result<T, E>, Pause: Fn() -> ()>(limit: u32, op: Op, pause: Pause) -> (r:
    Result<T, Exhausted<E>>)
    requires
        call_requires(op, ()),
        call_requires(pause, ()),
    ensures
        match r {
            Ok(v) => call_ensures(op, (), Ok(v)),
            Err(x) => call_ensures(op, (), Err(x.last)) && x.attempts == attempts_allowed(limit),
        },
{
    let mut failed: u32 = 0;
    loop
        invariant
            failed < attempts_allowed(limit),
            call_requires(op, ()),
            call_requires(pause, ()),
        decreases attempts_allowed(limit) - failed,
    {
        match op() {
            Ok(v) => {
                return Ok(v);
            },
            Err(e) => {
                let (verdict, count) = after_failure(limit, failed);
                match verdict {
                    Verdict::Again => {
                        failed = count;
                        pause();
                    },
                    Verdict::GiveUp => {
                        return Err(Exhausted { last: e, attempts: failed + 1 });
                    },
                }
            },
        }
    }
}

} // verus!
