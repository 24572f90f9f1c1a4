//! The lock controller: what this handle holds on the backing file.
//!
//! The lock is advisory and belongs to the file handle. The controller keeps
//! the handle's own belief about it, and errs on the side of holding less:
//! after any lock operation that did not go through, it assumes that nothing
//! is held.

use vstd::prelude::*;

verus! {

/// What a handle holds on the backing file.
#[derive(Clone, Copy, Debug, PartialEq, Eq, Structural)]
pub enum LockState {
    /// Nothing is held.
    Unlocked,
    /// A shared lock is held: other readers may hold one too, no writer can.
    SharedLocked,
    /// The exclusive lock is held: nobody else holds any lock.
    ExclusiveLocked,
}

/// The three things that can be asked of the lock.
#[derive(Clone, Copy, Debug, PartialEq, Eq, Structural)]
pub enum LockOp {
    AcquireShared,
    AcquireExclusive,
    Release,
}

impl LockState {
    /// Reading the file is in order under any lock.
    pub open spec fn covers_read(self) -> bool {
        self != LockState::Unlocked
    }

    /// Changing the file is in order under the exclusive lock only.
    pub open spec fn covers_write(self) -> bool {
        self == LockState::ExclusiveLocked
    }

    /// The state after `op` was tried and either went through or did not.
    pub open spec fn after(self, op: LockOp, granted: bool) -> LockState {
        if !granted {
            LockState::Unlocked
        } else {
            match op {
                LockOp::AcquireShared => LockState::SharedLocked,
                LockOp::AcquireExclusive => LockState::ExclusiveLocked,
                LockOp::Release => LockState::Unlocked,
            }
        }
    }

    /// Records how `op` went.
    pub fn record(self, op: LockOp, granted: bool) -> (r: LockState)
        ensures
            r == self.after(op, granted),
    {
        if !granted {
            LockState::Unlocked
        } else {
            match op {
                LockOp::AcquireShared => LockState::SharedLocked,
                LockOp::AcquireExclusive => LockState::ExclusiveLocked,
                LockOp::Release => LockState::Unlocked,
            }
        }
    }

    /// Whether any lock is held.
    pub fn is_locked(self) -> (r: bool)
        ensures
            r == self.covers_read(),
    {
        match self {
            LockState::Unlocked => false,
            _ => true,
        }
    }
}

} // verus!
