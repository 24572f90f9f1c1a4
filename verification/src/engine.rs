//! The persistence protocol, one step at a time.
//!
//! Loading and storing talk to the backing file through a fixed sequence of
//! file operations: take the lock, rewind, transfer, flush, give the lock
//! back. The engine never performs one of them. It says which one is due, is
//! told how it went, and decides what follows: the next operation, another
//! attempt after a pause, a fresh round from the lock on, or the end.
//!
//! A step that fails is tried again, after a pause, until its attempts are
//! used up. Then the round has failed: the lock, if one was taken, is given
//! back, and after a pause the whole sequence starts over, until the rounds
//! are used up too.

use crate::error::{Error, Fault};
use crate::lock::{LockOp, LockState};
use crate::retry::{after_failure, attempts_allowed, verdict_after, Verdict};
use vstd::prelude::*;

verus! {

/// A file operation that the engine can ask for.
#[derive(Clone, Copy, Debug, PartialEq, Eq, Structural)]
pub enum Op {
    /// Open the backing file for reading and writing; create it if absent.
    Open,
    /// Try to take a shared lock, without waiting.
    LockShared,
    /// Try to take the exclusive lock, without waiting.
    LockExclusive,
    /// Give the lock back.
    Unlock,
    /// Move to the start of the file.
    Seek,
    /// Read all bytes from the current position to the end.
    Read,
    /// Write the bytes of the request at the current position and cut the
    /// file off behind them.
    Write,
    /// Force what was written to durable storage.
    Flush,
    /// Wait a short, fixed time.
    Pause,
}

/// How a file operation went.
#[derive(Clone, Copy, Debug, PartialEq, Eq, Structural)]
pub enum Outcome {
    /// It was carried out.
    Success,
    /// It was not; another attempt may go through.
    Failure,
    /// It was carried out, and what it delivered cannot be used.
    Rejected,
}

/// What a run of file operations is for.
#[derive(Clone, Copy, Debug, PartialEq, Eq, Structural)]
pub enum Plan {
    /// Open the file, then load.
    Open,
    /// Bring the content of the file into memory.
    Load,
    /// Replace the content of the file.
    Store,
}

/// Where a run stands: the operation that is due or under way.
#[derive(Clone, Copy, Debug, PartialEq, Eq, Structural)]
pub enum Stage {
    Idle,
    Opening,
    Locking,
    Seeking,
    Reading,
    Writing,
    Flushing,
    Unlocking,
    Finished,
}

/// The state of the protocol for one file handle.
#[derive(Clone, Copy, Debug, PartialEq, Eq, Structural)]
pub struct Engine {
    /// The number of attempts that a step gets, and of rounds that a run gets.
    pub limit: u32,
    /// What the handle holds on the file.
    pub lock: LockState,
    pub plan: Plan,
    /// Whether the run takes the lock itself and gives it back, or relies on
    /// one that is held already.
    pub own_lock: bool,
    pub stage: Stage,
    /// Whether a pause is under way, after which `stage` is due.
    pub paused: bool,
    /// The attempts at the current step that have failed.
    pub tries: u32,
    /// The rounds of the current run that have failed.
    pub rounds: u32,
    /// Why the current round has failed, while its lock is being given back.
    pub fault: Option<Fault>,
    /// Once the run is finished: the failure it ended in, if any.
    pub failed: Option<Error>,
}

impl Engine {
    /// The stage that opens a round.
    pub open spec fn first_stage(self) -> Stage {
        if self.own_lock {
            Stage::Locking
        } else {
            Stage::Seeking
        }
    }

    /// The lock that the plan needs.
    pub open spec fn lock_op(self) -> LockOp {
        if self.plan == Plan::Store {
            LockOp::AcquireExclusive
        } else {
            LockOp::AcquireShared
        }
    }

    /// Whether a run is under way.
    pub open spec fn active(self) -> bool {
        self.stage != Stage::Idle && self.stage != Stage::Finished
    }

    /// The file operation that is due, if a run is under way.
    pub open spec fn due(self) -> Option<Op> {
        if self.paused && self.active() {
            Some(Op::Pause)
        } else {
            match self.stage {
                Stage::Idle => None,
                Stage::Opening => Some(Op::Open),
                Stage::Locking => Some(
                    if self.plan == Plan::Store {
                        Op::LockExclusive
                    } else {
                        Op::LockShared
                    },
                ),
                Stage::Seeking => Some(Op::Seek),
                Stage::Reading => Some(Op::Read),
                Stage::Writing => Some(Op::Write),
                Stage::Flushing => Some(Op::Flush),
                Stage::Unlocking => Some(Op::Unlock),
                Stage::Finished => None,
            }
        }
    }

    /// The failure that surfaces when the current step has used up its
    /// attempts.
    pub open spec fn step_fault(self) -> Fault {
        match self.stage {
            Stage::Locking => if self.plan == Plan::Store {
                Fault::WriteLockFailed
            } else {
                Fault::ReadLockFailed
            },
            Stage::Seeking => Fault::SeekFailed,
            Stage::Reading => Fault::ReadFailed,
            Stage::Writing => Fault::WriteFailed,
            Stage::Flushing => Fault::FlushFailed,
            Stage::Unlocking => Fault::UnlockFailed,
            _ => Fault::OpenFailed,
        }
    }

    /// The end of the run, with its failure if it has one.
    pub open spec fn ended(self, failed: Option<Error>) -> Engine {
        Engine { stage: Stage::Finished, paused: false, tries: 0, fault: None, failed, ..self }
    }

    /// The round has failed for good: pause and start a fresh one, or end the
    /// run with `kind` when the rounds are used up.
    pub open spec fn round_failed(self, kind: Fault) -> Engine {
        if verdict_after(self.limit, self.rounds as nat + 1) == Verdict::Again {
            Engine {
                stage: self.first_stage(),
                paused: true,
                tries: 0,
                rounds: (self.rounds + 1) as u32,
                fault: None,
                ..self
            }
        } else {
            self.ended(Some(Error { kind, exhausted: true }))
        }
    }

    /// The current step has failed for good with `kind`.
    ///
    /// A failure to open ends the run. So does, for its round, a failure to
    /// give the lock back, after which nothing is taken to be held. Any other
    /// failure under a lock of the run's own leads to giving that lock back
    /// first.
    pub open spec fn step_failed(self, kind: Fault) -> Engine {
        match self.stage {
            Stage::Opening => self.ended(Some(Error { kind: Fault::OpenFailed, exhausted: true })),
            Stage::Unlocking => Engine {
                lock: self.lock.after(LockOp::Release, false),
                ..self
            }.round_failed(
                match self.fault {
                    Some(first) => first,
                    None => Fault::UnlockFailed,
                },
            ),
            _ => if self.own_lock && self.lock.covers_read() {
                Engine { stage: Stage::Unlocking, tries: 0, fault: Some(kind), ..self }
            } else {
                self.round_failed(kind)
            },
        }
    }

    /// The current step went through.
    pub open spec fn step_done(self) -> Engine {
        match self.stage {
            Stage::Opening => Engine { stage: self.first_stage(), tries: 0, ..self },
            Stage::Locking => Engine {
                lock: self.lock.after(self.lock_op(), true),
                stage: Stage::Seeking,
                tries: 0,
                ..self
            },
            Stage::Seeking => Engine {
                stage: if self.plan == Plan::Store {
                    Stage::Writing
                } else {
                    Stage::Reading
                },
                tries: 0,
                ..self
            },
            Stage::Reading => if self.own_lock {
                Engine { stage: Stage::Unlocking, tries: 0, ..self }
            } else {
                self.ended(None)
            },
            Stage::Writing => Engine { stage: Stage::Flushing, tries: 0, ..self },
            Stage::Flushing => Engine { stage: Stage::Unlocking, tries: 0, ..self },
            Stage::Unlocking => {
                let freed = Engine { lock: self.lock.after(LockOp::Release, true), ..self };
                match self.fault {
                    Some(first) => freed.round_failed(first),
                    None => freed.ended(None),
                }
            },
            _ => self,
        }
    }

    /// The state after the operation that was due has gone as `outcome` says.
    ///
    /// After a pause the stage that was waiting is due, however the pause
    /// went. A lock that was not granted leaves nothing held. A step that
    /// failed gets another attempt after a pause while attempts are left.
    /// Content that cannot be used fails the round at once.
    pub open spec fn step(self, outcome: Outcome) -> Engine {
        if !self.active() {
            self
        } else if self.paused {
            Engine { paused: false, ..self }
        } else if outcome == Outcome::Success {
            self.step_done()
        } else {
            let now = if self.stage == Stage::Locking {
                Engine { lock: self.lock.after(self.lock_op(), false), ..self }
            } else {
                self
            };
            if outcome == Outcome::Rejected && self.stage == Stage::Reading {
                now.step_failed(Fault::DecodeFailed)
            } else if verdict_after(self.limit, self.tries as nat + 1) == Verdict::Again {
                Engine { tries: (self.tries + 1) as u32, paused: true, ..now }
            } else {
                now.step_failed(self.step_fault())
            }
        }
    }

    /// The state in which a run of `plan` begins. A load that is told that
    /// the lock is held takes none, as long as one is indeed held.
    pub open spec fn begun(self, plan: Plan, lock_held: bool) -> Engine {
        let own_lock = !(plan == Plan::Load && lock_held && self.lock.covers_read());
        let fresh = Engine {
            lock: if plan == Plan::Open {
                LockState::Unlocked
            } else {
                self.lock
            },
            plan,
            own_lock,
            stage: Stage::Idle,
            paused: false,
            tries: 0,
            rounds: 0,
            fault: None,
            failed: None,
            ..self
        };
        Engine {
            stage: if plan == Plan::Open {
                Stage::Opening
            } else {
                fresh.first_stage()
            },
            ..fresh
        }
    }

    /// How the run ended, once it has.
    pub open spec fn outcome(self) -> Option<Result<(), Error>> {
        if self.stage == Stage::Finished {
            Some(
                match self.failed {
                    Some(e) => Err(e),
                    None => Ok(()),
                },
            )
        } else {
            None
        }
    }
}

impl Engine {
    /// An engine at rest that holds nothing.
    pub open spec fn new_spec(limit: u32) -> Engine {
        Engine {
            limit,
            lock: LockState::Unlocked,
            plan: Plan::Load,
            own_lock: true,
            stage: Stage::Idle,
            paused: false,
            tries: 0,
            rounds: 0,
            fault: None,
            failed: None,
        }
    }

    /// An engine at rest that holds nothing.
    #[verifier::when_used_as_spec(new_spec)]
    pub fn new(limit: u32) -> (r: Engine)
        ensures
            r == Engine::new_spec(limit),
    {
        Engine {
            limit,
            lock: LockState::Unlocked,
            plan: Plan::Load,
            own_lock: true,
            stage: Stage::Idle,
            paused: false,
            tries: 0,
            rounds: 0,
            fault: None,
            failed: None,
        }
    }

    /// Begins a run of `plan`.
    pub fn begin(self, plan: Plan, lock_held: bool) -> (r: Engine)
        ensures
            r == self.begun(plan, lock_held),
    {
        let is_open = match plan {
            Plan::Open => true,
            _ => false,
        };
        let is_load = match plan {
            Plan::Load => true,
            _ => false,
        };
        let own_lock = !(is_load && lock_held && self.lock.is_locked());
        Engine {
            limit: self.limit,
            lock: if is_open {
                LockState::Unlocked
            } else {
                self.lock
            },
            plan,
            own_lock,
            stage: if is_open {
                Stage::Opening
            } else if own_lock {
                Stage::Locking
            } else {
                Stage::Seeking
            },
            paused: false,
            tries: 0,
            rounds: 0,
            fault: None,
            failed: None,
        }
    }

    /// The file operation that is due, if a run is under way.
    pub fn request(self) -> (r: Option<Op>)
        ensures
            r == self.due(),
    {
        match self.stage {
            Stage::Idle => None,
            Stage::Finished => None,
            _ => if self.paused {
                Some(Op::Pause)
            } else {
                match self.stage {
                    Stage::Opening => Some(Op::Open),
                    Stage::Locking => match self.plan {
                        Plan::Store => Some(Op::LockExclusive),
                        _ => Some(Op::LockShared),
                    },
                    Stage::Seeking => Some(Op::Seek),
                    Stage::Reading => Some(Op::Read),
                    Stage::Writing => Some(Op::Write),
                    Stage::Flushing => Some(Op::Flush),
                    _ => Some(Op::Unlock),
                }
            },
        }
    }

    /// How the run ended, once it has.
    pub fn result(self) -> (r: Option<Result<(), Error>>)
        ensures
            r == self.outcome(),
    {
        match self.stage {
            Stage::Finished => match self.failed {
                Some(e) => Some(Err(e)),
                None => Some(Ok(())),
            },
            _ => None,
        }
    }

    fn wanted_lock(self) -> (r: LockOp)
        ensures
            r == self.lock_op(),
    {
        match self.plan {
            Plan::Store => LockOp::AcquireExclusive,
            _ => LockOp::AcquireShared,
        }
    }

    fn end(self, failed: Option<Error>) -> (r: Engine)
        ensures
            r == self.ended(failed),
    {
        let mut next = self;
        next.stage = Stage::Finished;
        next.paused = false;
        next.tries = 0;
        next.fault = None;
        next.failed = failed;
        next
    }

    fn fail_round(self, kind: Fault) -> (r: Engine)
        ensures
            r == self.round_failed(kind),
    {
        match after_failure(self.limit, self.rounds) {
            (Verdict::Again, rounds) => {
                let mut next = self;
                next.stage = if self.own_lock {
                    Stage::Locking
                } else {
                    Stage::Seeking
                };
                next.paused = true;
                next.tries = 0;
                next.rounds = rounds;
                next.fault = None;
                next
            },
            (Verdict::GiveUp, _) => self.end(Some(Error { kind, exhausted: true })),
        }
    }

    fn fail_step(self, kind: Fault) -> (r: Engine)
        ensures
            r == self.step_failed(kind),
    {
        match self.stage {
            Stage::Opening => self.end(Some(Error { kind: Fault::OpenFailed, exhausted: true })),
            Stage::Unlocking => {
                let mut freed = self;
                freed.lock = self.lock.record(LockOp::Release, false);
                match self.fault {
                    Some(first) => freed.fail_round(first),
                    None => freed.fail_round(Fault::UnlockFailed),
                }
            },
            _ => if self.own_lock && self.lock.is_locked() {
                let mut next = self;
                next.stage = Stage::Unlocking;
                next.tries = 0;
                next.fault = Some(kind);
                next
            } else {
                self.fail_round(kind)
            },
        }
    }

    fn pass_step(self) -> (r: Engine)
        ensures
            r == self.step_done(),
    {
        let mut next = self;
        match self.stage {
            Stage::Opening => {
                next.stage = if self.own_lock {
                    Stage::Locking
                } else {
                    Stage::Seeking
                };
                next.tries = 0;
                next
            },
            Stage::Locking => {
                next.lock = self.lock.record(self.wanted_lock(), true);
                next.stage = Stage::Seeking;
                next.tries = 0;
                next
            },
            Stage::Seeking => {
                next.stage = match self.plan {
                    Plan::Store => Stage::Writing,
                    _ => Stage::Reading,
                };
                next.tries = 0;
                next
            },
            Stage::Reading => if self.own_lock {
                next.stage = Stage::Unlocking;
                next.tries = 0;
                next
            } else {
                self.end(None)
            },
            Stage::Writing => {
                next.stage = Stage::Flushing;
                next.tries = 0;
                next
            },
            Stage::Flushing => {
                next.stage = Stage::Unlocking;
                next.tries = 0;
                next
            },
            Stage::Unlocking => {
                next.lock = self.lock.record(LockOp::Release, true);
                match self.fault {
                    Some(first) => next.fail_round(first),
                    None => next.end(None),
                }
            },
            _ => self,
        }
    }

    fn current_fault(self) -> (r: Fault)
        ensures
            r == self.step_fault(),
    {
        match self.stage {
            Stage::Locking => match self.plan {
                Plan::Store => Fault::WriteLockFailed,
                _ => Fault::ReadLockFailed,
            },
            Stage::Seeking => Fault::SeekFailed,
            Stage::Reading => Fault::ReadFailed,
            Stage::Writing => Fault::WriteFailed,
            Stage::Flushing => Fault::FlushFailed,
            Stage::Unlocking => Fault::UnlockFailed,
            _ => Fault::OpenFailed,
        }
    }

    /// Takes in how the operation that was due went, and moves on.
    pub fn advance(self, outcome: Outcome) -> (r: Engine)
        ensures
            r == self.step(outcome),
    {
        match self.stage {
            Stage::Idle => {
                return self;
            },
            Stage::Finished => {
                return self;
            },
            _ => {},
        }
        if self.paused {
            let mut next = self;
            next.paused = false;
            return next;
        }
        let (went_through, unusable) = match outcome {
            Outcome::Success => (true, false),
            Outcome::Failure => (false, false),
            Outcome::Rejected => (false, true),
        };
        if went_through {
            return self.pass_step();
        }
        let mut now = self;
        let reading = match self.stage {
            Stage::Locking => {
                now.lock = self.lock.record(self.wanted_lock(), false);
                false
            },
            Stage::Reading => true,
            _ => false,
        };
        if unusable && reading {
            return now.fail_step(Fault::DecodeFailed);
        }
        match after_failure(self.limit, self.tries) {
            (Verdict::Again, tries) => {
                now.tries = tries;
                now.paused = true;
                now
            },
            (Verdict::GiveUp, _) => now.fail_step(self.current_fault()),
        }
    }
}

/// The failures that a run of `plan` can end in: those of the file operations
/// that it asks for, and for a run that reads, that of bytes that are no
/// snapshot.
pub open spec fn may_fail_with(plan: Plan, kind: Fault) -> bool {
    match kind {
        Fault::OpenFailed => plan == Plan::Open,
        Fault::ReadLockFailed => plan != Plan::Store,
        Fault::ReadFailed => plan != Plan::Store,
        Fault::DecodeFailed => plan != Plan::Store,
        Fault::WriteLockFailed => plan == Plan::Store,
        Fault::WriteFailed => plan == Plan::Store,
        Fault::FlushFailed => plan == Plan::Store,
        Fault::SeekFailed => true,
        Fault::UnlockFailed => true,
        Fault::EncodeFailed => false,
    }
}

impl Engine {
    /// What holds of every state that a run passes through.
    pub open spec fn wf(self) -> bool {
        &&& self.tries < attempts_allowed(self.limit)
        &&& self.rounds < attempts_allowed(self.limit)
        &&& (self.plan != Plan::Load ==> self.own_lock)
        &&& (!self.own_lock ==> self.lock.covers_read())
        &&& (self.stage == Stage::Opening ==> self.plan == Plan::Open && self.lock
            == LockState::Unlocked)
        &&& (self.stage == Stage::Locking || self.stage == Stage::Unlocking ==> self.own_lock)
        &&& (self.stage == Stage::Seeking || self.stage == Stage::Reading
            ==> self.lock.covers_read())
        &&& (self.stage == Stage::Reading ==> self.plan != Plan::Store)
        &&& (self.stage == Stage::Writing || self.stage == Stage::Flushing ==> self.plan
            == Plan::Store)
        &&& (self.plan == Plan::Store && (self.stage == Stage::Seeking || self.stage
            == Stage::Writing || self.stage == Stage::Flushing) ==> self.lock.covers_write())
        &&& (self.fault is Some ==> self.stage == Stage::Unlocking)
        &&& (self.fault matches Some(kind) ==> may_fail_with(self.plan, kind))
        &&& (self.failed matches Some(e) ==> e.exhausted && may_fail_with(self.plan, e.kind))
        &&& (self.stage == Stage::Finished && self.own_lock ==> self.lock == LockState::Unlocked)
        &&& (self.paused ==> self.active())
    }

    /// The state after the operations that were due, one after the other,
    /// have gone as `outcomes` says.
    pub open spec fn run(self, outcomes: Seq<Outcome>) -> Engine
        decreases outcomes.len(),
    {
        if outcomes.len() == 0 {
            self
        } else {
            self.run(outcomes.drop_last()).step(outcomes.last())
        }
    }

    /// How much of a run is left at most: the rounds, the stages of the
    /// round, the attempts at the stage, and the pause before it.
    pub open spec fn rank(self) -> (nat, nat, nat, nat) {
        (
            (attempts_allowed(self.limit) - self.rounds) as nat,
            match self.stage {
                Stage::Opening => 6,
                Stage::Locking => 5,
                Stage::Seeking => 4,
                Stage::Reading => 3,
                Stage::Writing => 3,
                Stage::Flushing => 2,
                Stage::Unlocking => 1,
                _ => 0,
            },
            (attempts_allowed(self.limit) - self.tries) as nat,
            if self.paused {
                1
            } else {
                0
            },
        )
    }
}

/// The order in which `rank` goes down: by the first place in which two
/// ranks differ.
pub open spec fn lower(a: (nat, nat, nat, nat), b: (nat, nat, nat, nat)) -> bool {
    a.0 < b.0 || (a.0 == b.0 && (a.1 < b.1 || (a.1 == b.1 && (a.2 < b.2 || (a.2 == b.2 && a.3
        < b.3)))))
}

/// A run begins in a well-formed state, whatever stood before.
pub proof fn lemma_begun_wf(e: Engine, plan: Plan, lock_held: bool)
    ensures
        e.begun(plan, lock_held).wf(),
        e.begun(plan, lock_held).active(),
{
}

/// A step leads from a well-formed state to a well-formed state.
pub proof fn lemma_step_wf(e: Engine, outcome: Outcome)
    requires
        e.wf(),
    ensures
        e.step(outcome).wf(),
{
}

/// Every state of a run is well-formed.
pub proof fn lemma_run_wf(e: Engine, plan: Plan, lock_held: bool, outcomes: Seq<Outcome>)
    ensures
        e.begun(plan, lock_held).run(outcomes).wf(),
    decreases outcomes.len(),
{
    lemma_begun_wf(e, plan, lock_held);
    if outcomes.len() > 0 {
        lemma_run_wf(e, plan, lock_held, outcomes.drop_last());
        lemma_step_wf(e.begun(plan, lock_held).run(outcomes.drop_last()), outcomes.last());
    }
}

/// The file is read under a lock only, and changed under the exclusive lock
/// only: at no point of a run is an operation on the content of the file due
/// without the lock that covers it.
pub proof fn lemma_access_under_lock(
    e: Engine,
    plan: Plan,
    lock_held: bool,
    outcomes: Seq<Outcome>,
)
    ensures
        ({
            let now = e.begun(plan, lock_held).run(outcomes);
            &&& now.due() == Some(Op::Read) ==> now.lock.covers_read()
            &&& now.due() == Some(Op::Seek) ==> now.lock.covers_read()
            &&& now.due() == Some(Op::Write) ==> now.lock.covers_write()
            &&& now.due() == Some(Op::Flush) ==> now.lock.covers_write()
            &&& plan == Plan::Store && now.due() == Some(Op::Seek) ==> now.lock.covers_write()
        }),
{
    lemma_run_wf(e, plan, lock_held, outcomes);
    lemma_run_keeps_plan(e.begun(plan, lock_held), outcomes);
}

/// A run keeps its plan, its limit and its way with the lock.
pub proof fn lemma_run_keeps_plan(e: Engine, outcomes: Seq<Outcome>)
    ensures
        e.run(outcomes).plan == e.plan,
        e.run(outcomes).limit == e.limit,
        e.run(outcomes).own_lock == e.own_lock,
    decreases outcomes.len(),
{
    if outcomes.len() > 0 {
        lemma_run_keeps_plan(e, outcomes.drop_last());
    }
}

/// Every lock that a run takes it gives back: when the run is over, however
/// it went, a run that took its own lock holds nothing.
pub proof fn lemma_lock_released(e: Engine, plan: Plan, lock_held: bool, outcomes: Seq<Outcome>)
    ensures
        ({
            let now = e.begun(plan, lock_held).run(outcomes);
            now.stage == Stage::Finished && now.own_lock ==> now.lock == LockState::Unlocked
        }),
{
    lemma_run_wf(e, plan, lock_held, outcomes);
}

/// No run goes on for ever: each step of a run that is under way lowers its
/// rank.
pub proof fn lemma_step_lowers_rank(e: Engine, outcome: Outcome)
    requires
        e.wf(),
        e.active(),
    ensures
        lower(e.step(outcome).rank(), e.rank()),
{
}

} // verus!
