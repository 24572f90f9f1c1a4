//! Two handles on one file.
//!
//! Handles do not know of each other. What keeps them apart is the lock on
//! the file: it grants a shared lock only while nobody else holds the
//! exclusive one, and the exclusive lock only while nobody else holds any.
//! This module shows that, on such a file, the protocol never lets one handle
//! change the file while the other reads or changes it.

use crate::codec::{Codec, Key};
use crate::engine::{lemma_begun_wf, lemma_step_wf, Engine, Op, Outcome, Plan, Stage};
use crate::error::Fault;
use crate::lock::LockState;
use crate::quiet::begins;
use crate::snapshot::parse_snapshot;
use crate::store::{Progress, Reply, Task, KV};
use vstd::prelude::*;

verus! {

/// Whether two handles can hold `a` and `b` on one file at the same time.
pub open spec fn compatible(a: LockState, b: LockState) -> bool {
    &&& a == LockState::ExclusiveLocked ==> b == LockState::Unlocked
    &&& b == LockState::ExclusiveLocked ==> a == LockState::Unlocked
}

/// Whether the operation on the content of the file that is due on `e`, if
/// any, changes it.
pub open spec fn writing(e: Engine) -> bool {
    e.due() == Some(Op::Write) || e.due() == Some(Op::Flush)
}

/// Whether an operation on the content of the file is due on `e`.
pub open spec fn accessing(e: Engine) -> bool {
    e.due() == Some(Op::Seek) || e.due() == Some(Op::Read) || writing(e)
}

/// What one of two handles does next.
pub enum Turn {
    /// It begins a run.
    Begin { first: bool, plan: Plan, lock_held: bool },
    /// The operation that is due on it goes as `outcome` says.
    Step { first: bool, outcome: Outcome },
}

/// Whether the file can let `turn` happen while the two handles are in the
/// states `a` and `b`: it grants a lock only if what the other handle holds
/// allows it.
pub open spec fn granted(a: Engine, b: Engine, turn: Turn) -> bool {
    match turn {
        Turn::Begin { .. } => true,
        Turn::Step { first, outcome } => {
            let (mine, other) = if first {
                (a, b)
            } else {
                (b, a)
            };
            outcome == Outcome::Success ==> match mine.due() {
                Some(Op::LockShared) => other.lock != LockState::ExclusiveLocked,
                Some(Op::LockExclusive) => other.lock == LockState::Unlocked,
                _ => true,
            }
        },
    }
}

/// The states of the two handles after `turn`.
pub open spec fn after_turn(a: Engine, b: Engine, turn: Turn) -> (Engine, Engine) {
    match turn {
        Turn::Begin { first, plan, lock_held } => if first {
            (a.begun(plan, lock_held), b)
        } else {
            (a, b.begun(plan, lock_held))
        },
        Turn::Step { first, outcome } => if first {
            (a.step(outcome), b)
        } else {
            (a, b.step(outcome))
        },
    }
}

/// The states of the two handles after `turns`, one after the other.
pub open spec fn after_turns(a: Engine, b: Engine, turns: Seq<Turn>) -> (Engine, Engine)
    decreases turns.len(),
{
    if turns.len() == 0 {
        (a, b)
    } else {
        let (x, y) = after_turns(a, b, turns.drop_last());
        after_turn(x, y, turns.last())
    }
}

/// Whether the file can let all of `turns` happen, one after the other.
pub open spec fn all_granted(a: Engine, b: Engine, turns: Seq<Turn>) -> bool
    decreases turns.len(),
{
    turns.len() == 0 || {
        let (x, y) = after_turns(a, b, turns.drop_last());
        all_granted(a, b, turns.drop_last()) && granted(x, y, turns.last())
    }
}

/// A step changes what a handle holds in one of three ways only: not at all,
/// to nothing, or to the lock that it asked for and was granted.
pub proof fn lemma_lock_after_step(e: Engine, outcome: Outcome)
    ensures
        ({
            let next = e.step(outcome);
            ||| next.lock == e.lock
            ||| next.lock == LockState::Unlocked
            ||| outcome == Outcome::Success && e.due() == Some(Op::LockShared) && next.lock
                == LockState::SharedLocked
            ||| outcome == Outcome::Success && e.due() == Some(Op::LockExclusive) && next.lock
                == LockState::ExclusiveLocked
        }),
{
}

/// One turn that the file can let happen keeps what the two handles hold
/// compatible.
pub proof fn lemma_turn_keeps_apart(a: Engine, b: Engine, turn: Turn)
    requires
        a.wf(),
        b.wf(),
        compatible(a.lock, b.lock),
        granted(a, b, turn),
    ensures
        after_turn(a, b, turn).0.wf(),
        after_turn(a, b, turn).1.wf(),
        compatible(after_turn(a, b, turn).0.lock, after_turn(a, b, turn).1.lock),
{
    match turn {
        Turn::Begin { first, plan, lock_held } => {
            lemma_begun_wf(a, plan, lock_held);
            lemma_begun_wf(b, plan, lock_held);
        },
        Turn::Step { first, outcome } => {
            lemma_step_wf(a, outcome);
            lemma_step_wf(b, outcome);
            lemma_lock_after_step(a, outcome);
            lemma_lock_after_step(b, outcome);
        },
    }
}

/// Mutual exclusion: however the turns of two handles on one file fall, what
/// they hold stays compatible, and while one of them is due to change the
/// file, the other is due neither to read nor to change it.
pub proof fn theorem_mutual_exclusion(a: Engine, b: Engine, turns: Seq<Turn>)
    requires
        a.wf(),
        b.wf(),
        compatible(a.lock, b.lock),
        all_granted(a, b, turns),
    ensures
        ({
            let (x, y) = after_turns(a, b, turns);
            &&& x.wf()
            &&& y.wf()
            &&& compatible(x.lock, y.lock)
            &&& writing(x) ==> !accessing(y)
            &&& writing(y) ==> !accessing(x)
        }),
    decreases turns.len(),
{
    if turns.len() > 0 {
        theorem_mutual_exclusion(a, b, turns.drop_last());
        let (x, y) = after_turns(a, b, turns.drop_last());
        lemma_turn_keeps_apart(x, y, turns.last());
    }
}

/// The file that two handles share. A write leaves it torn until it is
/// flushed: what a read would deliver in between is anybody's guess.
pub struct SharedFile {
    pub content: Seq<u8>,
    pub torn: bool,
}

/// Two stores on one file.
pub struct Scene<K: Key, V: Codec> {
    pub a: KV<K, V>,
    pub b: KV<K, V>,
    pub file: SharedFile,
}

impl<K: Key, V: Codec> Scene<K, V> {
    /// The store whose turn it is.
    pub open spec fn mine(self, first: bool) -> KV<K, V> {
        if first {
            self.a
        } else {
            self.b
        }
    }

    /// The store whose turn it is not.
    pub open spec fn other(self, first: bool) -> KV<K, V> {
        if first {
            self.b
        } else {
            self.a
        }
    }
}

/// Whether `reply` is what the file can reply to the operation that is due
/// on `me`, the other handle holding `held`. A lock is granted only if what
/// the other handle holds allows it, and may be refused at any time. A read
/// delivers the content of the file unless the file is torn. Everything else
/// goes through.
pub open spec fn replied<K: Key, V: Codec>(
    file: SharedFile,
    me: KV<K, V>,
    held: LockState,
    reply: Reply,
) -> bool {
    match me.engine().due() {
        Some(Op::LockShared) => if reply is Done {
            held != LockState::ExclusiveLocked
        } else {
            reply is Failed
        },
        Some(Op::LockExclusive) => if reply is Done {
            held == LockState::Unlocked
        } else {
            reply is Failed
        },
        Some(Op::Read) => reply matches Reply::Data(bytes) && (!file.torn ==> bytes@
            == file.content),
        _ => reply is Done,
    }
}

/// The file after the operation that is due on `me` has gone through.
pub open spec fn file_after<K: Key, V: Codec>(file: SharedFile, me: KV<K, V>) -> SharedFile {
    match me.engine().due() {
        Some(Op::Write) => SharedFile { torn: true, ..file },
        Some(Op::Flush) => SharedFile { content: me.payload(), torn: false },
        _ => file,
    }
}

/// One turn: the store whose turn it is has its file operation carried out
/// on the shared file and takes the reply in.
pub open spec fn turn<K: Key, V: Codec>(
    before: Scene<K, V>,
    first: bool,
    reply: Reply,
    progress: Progress<K, V>,
    after: Scene<K, V>,
) -> bool {
    &&& before.mine(first).engine().active()
    &&& replied(before.file, before.mine(first), before.other(first).engine().lock, reply)
    &&& after.mine(first).follows(before.mine(first), reply, progress)
    &&& after.other(first) == before.other(first)
    &&& after.file == file_after(before.file, before.mine(first))
}

/// Whether the store has flushed the snapshot of its table.
pub open spec fn flushed<K: Key, V: Codec>(me: KV<K, V>) -> bool {
    me.engine().plan == Plan::Store && (me.engine().stage == Stage::Unlocking || (
    me.engine().stage == Stage::Finished && me.engine().failed is None))
}

/// Whether the store has written and is due to flush.
pub open spec fn flushing<K: Key, V: Codec>(me: KV<K, V>) -> bool {
    me.engine().plan == Plan::Store && me.engine().stage == Stage::Flushing
}

/// What holds of a store all through an insert of `key` on a file on which
/// nothing fails but the taking of a lock.
pub open spec fn calm<K: Key, V: Codec>(me: KV<K, V>, key: K::Model) -> bool {
    &&& me.engine().wf()
    &&& me.engine().own_lock
    &&& me.engine().fault is None
    &&& (me.engine().paused ==> me.engine().stage == Stage::Locking)
    &&& (me.engine().failed matches Some(e) ==> e.kind == Fault::ReadLockFailed || e.kind
        == Fault::WriteLockFailed)
    &&& match me.task() {
        Some(task) => {
            &&& task matches Task::Insert(k, _)
            &&& k.model() == key
            &&& me.engine().plan == Plan::Load
            &&& me.engine().active()
        },
        None => if me.engine().plan == Plan::Store {
            parse_snapshot::<K, V>(me.payload()) == Some(me@) && me@.contains_key(key)
        } else {
            !me.engine().active()
        },
    }
}

/// What holds of two stores and their file all through two inserts, of `ka`
/// and of `kb`, that began on a file holding `content`: what the stores hold
/// on the file is compatible; the file is torn only while one of them is due
/// to flush; and otherwise it holds a snapshot, the one that it held at first
/// as long as neither store has flushed, and else the one that a store has
/// flushed.
pub open spec fn whole<K: Key, V: Codec>(
    scene: Scene<K, V>,
    ka: K::Model,
    kb: K::Model,
    content: Seq<u8>,
) -> bool {
    &&& calm(scene.a, ka)
    &&& calm(scene.b, kb)
    &&& compatible(scene.a.engine().lock, scene.b.engine().lock)
    &&& parse_snapshot::<K, V>(content) is Some
    &&& scene.file.torn ==> flushing(scene.a) || flushing(scene.b)
    &&& !scene.file.torn ==> {
        ||| scene.file.content == content && !flushed(scene.a) && !flushed(scene.b)
        ||| flushed(scene.a) && scene.file.content == scene.a.payload()
        ||| flushed(scene.b) && scene.file.content == scene.b.payload()
    }
}

/// One turn of a calm store: the store stays calm, it comes to be due to
/// flush by writing only, and to have flushed by flushing only.
pub proof fn lemma_calm_turn<K: Key, V: Codec>(
    me: KV<K, V>,
    key: K::Model,
    reply: Reply,
    progress: Progress<K, V>,
    after: KV<K, V>,
)
    requires
        calm(me, key),
        me.engine().active(),
        after.follows(me, reply, progress),
        match me.engine().due() {
            Some(Op::LockShared) => reply is Done || reply is Failed,
            Some(Op::LockExclusive) => reply is Done || reply is Failed,
            Some(Op::Read) => reply matches Reply::Data(bytes) && parse_snapshot::<K, V>(bytes@)
                is Some,
            _ => reply is Done,
        },
    ensures
        calm(after, key),
        after.engine() == me.engine().step(me.outcome_of(reply)) || after.engine()
            == me.engine().step(me.outcome_of(reply)).begun(Plan::Store, false),
        flushing(after) <==> me.engine().due() == Some(Op::Write),
        flushed(after) <==> flushed(me) || me.engine().due() == Some(Op::Flush),
        me.engine().plan == Plan::Store ==> after.payload() == me.payload(),
        progress matches Progress::Finished(Err(e)) ==> e.kind == Fault::ReadLockFailed || e.kind
            == Fault::WriteLockFailed || e.kind == Fault::EncodeFailed,
{
    lemma_step_wf(me.engine(), me.outcome_of(reply));
    lemma_begun_wf(me.engine().step(me.outcome_of(reply)), Plan::Store, false);
}

/// One turn leaves two stores and their file as whole as they were.
pub proof fn lemma_turn_keeps_whole<K: Key, V: Codec>(
    before: Scene<K, V>,
    first: bool,
    reply: Reply,
    progress: Progress<K, V>,
    after: Scene<K, V>,
    ka: K::Model,
    kb: K::Model,
    content: Seq<u8>,
)
    requires
        whole(before, ka, kb, content),
        turn(before, first, reply, progress, after),
    ensures
        whole(after, ka, kb, content),
        progress matches Progress::Finished(Err(e)) ==> e.kind == Fault::ReadLockFailed || e.kind
            == Fault::WriteLockFailed || e.kind == Fault::EncodeFailed,
{
    let me = before.mine(first);
    let other = before.other(first);
    let key = if first {
        ka
    } else {
        kb
    };
    // a torn file is not read: the store that tore it holds the exclusive lock
    assert(me.engine().due() == Some(Op::Read) ==> !before.file.torn);
    lemma_calm_turn(me, key, reply, progress, after.mine(first));
    lemma_lock_after_step(me.engine(), me.outcome_of(reply));
}

/// The record of a race: two stores insert on one file, a turn of one or
/// the other at a time.
pub struct Race<K: Key, V: Codec> {
    pub scenes: Seq<Scene<K, V>>,
    pub first: Seq<bool>,
    pub replies: Seq<Reply>,
    pub steps: Seq<Progress<K, V>>,
}

impl<K: Key, V: Codec> Race<K, V> {
    /// The number of turns.
    pub open spec fn len(self) -> int {
        self.replies.len() as int
    }

    /// Whether this is the record of a race of two inserts, of `va` under
    /// `ka` by the store `a` and of `vb` under `kb` by the store `b`, on a
    /// file that holds `content` and on which neither store holds anything.
    pub open spec fn of(
        self,
        a: KV<K, V>,
        ka: K,
        va: V,
        b: KV<K, V>,
        kb: K,
        vb: V,
        content: Seq<u8>,
    ) -> bool {
        &&& self.scenes.len() == self.len() + 1
        &&& self.first.len() == self.len()
        &&& self.steps.len() == self.len()
        &&& a.engine().lock == LockState::Unlocked
        &&& b.engine().lock == LockState::Unlocked
        &&& begins(self.scenes[0].a, a, Task::Insert(ka, va))
        &&& begins(self.scenes[0].b, b, Task::Insert(kb, vb))
        &&& self.scenes[0].file == SharedFile { content, torn: false }
        &&& forall|i: int| 0 <= i < self.len() ==> #[trigger] self.turn_at(i)
    }

    /// Whether turn `i` of the record is a turn of the race.
    pub open spec fn turn_at(self, i: int) -> bool {
        turn(self.scenes[i], self.first[i], self.replies[i], self.steps[i], self.scenes[i + 1])
    }
}

/// Two stores that insert at the same time never spoil the file.
///
/// However their turns fall, on a file that held a snapshot and on which
/// nothing fails but the taking of a lock: no read ever comes upon a torn
/// file, so that no store fails to decode what it reads; and once both
/// stores are through, the file holds a snapshot, which holds the key of a
/// store whose insert went through.
pub proof fn theorem_race_keeps_file_whole<K: Key, V: Codec>(
    race: Race<K, V>,
    a: KV<K, V>,
    ka: K,
    va: V,
    b: KV<K, V>,
    kb: K,
    vb: V,
    content: Seq<u8>,
    i: int,
)
    requires
        race.of(a, ka, va, b, kb, vb, content),
        parse_snapshot::<K, V>(content) is Some,
        0 <= i <= race.len(),
    ensures
        whole(race.scenes[i], ka.model(), kb.model(), content),
        forall|j: int|
            0 <= j < i ==> (#[trigger] race.steps[j] matches Progress::Finished(Err(e)) ==> e.kind
                != Fault::DecodeFailed),
        ({
            let end = race.scenes[i];
            !end.a.engine().active() && !end.b.engine().active() ==> {
                &&& !end.file.torn
                &&& parse_snapshot::<K, V>(end.file.content) matches Some(m)
                &&& flushed(end.a) || flushed(end.b) ==> m.contains_key(ka.model())
                    || m.contains_key(kb.model())
            }
        }),
    decreases i,
{
    if i == 0 {
        lemma_begun_wf(a.engine(), Plan::Load, false);
        lemma_begun_wf(b.engine(), Plan::Load, false);
    } else {
        theorem_race_keeps_file_whole(race, a, ka, va, b, kb, vb, content, i - 1);
        assert(race.turn_at(i - 1));
        lemma_turn_keeps_whole(
            race.scenes[i - 1],
            race.first[i - 1],
            race.replies[i - 1],
            race.steps[i - 1],
            race.scenes[i],
            ka.model(),
            kb.model(),
            content,
        );
    }
}

} // verus!
