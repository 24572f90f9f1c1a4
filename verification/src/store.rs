//! The store: a table in memory that mirrors the backing file.
//!
//! Every operation first refreshes the table from the file and, where it
//! changes the table, writes the whole table back. The store itself performs
//! no file operation: it hands out requests and takes in replies.
//!
//! The refresh and the write are two separate critical sections. Between
//! them another handle may write the file, and the write that follows then
//! replaces that snapshot as a whole: of two handles that change the file at
//! the same time the last writer wins, and the change of the other is lost.
//! The store does not merge.

use crate::codec::{Codec, Key};
use crate::engine::{
    lemma_begun_wf, lemma_step_lowers_rank, lemma_step_wf, may_fail_with, Engine, Op, Outcome,
    Plan, Stage,
};
use crate::lock::LockState;
use crate::retry::DEFAULT_ATTEMPTS;
use crate::error::{Error, Fault};
use crate::snapshot::{all_accepted, all_fit, parse_snapshot, snapshot_bytes};
use crate::table::{lists_keys, Table};
use vstd::prelude::*;

verus! {

/// A file operation for the embedding program to carry out.
#[derive(Debug)]
pub struct Request {
    pub op: Op,
    /// The bytes to write, for `Op::Write`. Empty otherwise.
    pub bytes: Vec<u8>,
}

/// How a requested file operation went.
#[derive(Debug)]
pub enum Reply {
    /// It was carried out.
    Done,
    /// It was carried out and delivered these bytes.
    Data(Vec<u8>),
    /// It was not carried out.
    Failed,
}

/// What can be asked of a store.
pub enum Task<K, V> {
    /// Open the backing file and load what it holds.
    Open,
    /// Look a key up.
    Get(K),
    /// List the keys.
    Keys,
    /// Store a value under a key.
    Insert(K, V),
    /// Take a key out.
    Remove(K),
}

/// What a task that went through has to say.
pub enum Answer<K, V> {
    /// Nothing but that it went through.
    Nothing,
    /// The value under the key that was looked up, if there is one.
    Value(Option<V>),
    /// The keys, each once.
    Keys(Vec<K>),
}

/// Where a task stands after a reply was taken in.
pub enum Progress<K, V> {
    /// This file operation is due.
    Next(Request),
    /// The task is over.
    Finished(Result<Answer<K, V>, Error>),
}

/// The file operations that a task begins with.
pub open spec fn plan_of<K, V>(task: Task<K, V>) -> Plan {
    match task {
        Task::Open => Plan::Open,
        _ => Plan::Load,
    }
}

/// Whether `found` is what looking `k` up in `m` gives.
pub open spec fn is_lookup<V: Codec, Q>(found: Option<V>, m: Map<Q, V::Model>, k: Q) -> bool {
    match found {
        Some(v) => m.contains_key(k) && v.model() == m[k],
        None => !m.contains_key(k),
    }
}

/// Whether `m` is the mapping of a snapshot that a read through `io` can
/// deliver.
pub open spec fn delivers<K: Codec, V: Codec, F: Fn(Request) -> Reply>(
    io: &F,
    m: Map<K::Model, V::Model>,
) -> bool {
    exists|request: Request, bytes: Vec<u8>|
        request.op == Op::Read && #[trigger] call_ensures(io, (request,), Reply::Data(bytes))
            && parse_snapshot::<K, V>(bytes@) == Some(m)
}

/// Whether a write of `bytes` through `io` can go through.
pub open spec fn accepts<F: Fn(Request) -> Reply>(io: &F, bytes: Seq<u8>) -> bool {
    exists|request: Request, reply: Reply|
        request.op == Op::Write && request.bytes@ == bytes && !(reply is Failed)
            && #[trigger] call_ensures(io, (request,), reply)
}

/// A store: the table in memory, and the state of the protocol that keeps it
/// in step with the backing file.
pub struct KV<K: Key, V: Codec> {
    table: Table<K, V>,
    engine: Engine,
    payload: Vec<u8>,
    task: Option<Task<K, V>>,
}

impl<K: Key, V: Codec> View for KV<K, V> {
    type V = Map<K::Model, V::Model>;

    /// The mapping that the table in memory stands for.
    open spec fn view(&self) -> Map<K::Model, V::Model> {
        self.table()@
    }
}

impl<K: Key, V: Codec> KV<K, V> {
    /// The table in memory.
    pub closed spec fn table(&self) -> Table<K, V> {
        self.table
    }

    /// The state of the protocol.
    pub closed spec fn engine(&self) -> Engine {
        self.engine
    }

    /// The snapshot that is being written, or was written last.
    pub closed spec fn payload(&self) -> Seq<u8> {
        self.payload@
    }

    /// The task under way, as long as its load is.
    pub closed spec fn task(&self) -> Option<Task<K, V>> {
        self.task
    }

    /// Whether `request` is the file operation that is due.
    pub open spec fn asks(&self, request: Request) -> bool {
        &&& self.engine().due() == Some(request.op)
        &&& request.bytes@ == if request.op == Op::Write {
            self.payload()
        } else {
            Seq::empty()
        }
    }

    /// How the protocol is to take `reply`. A read went through when it
    /// delivered bytes, and these can be used when they are a snapshot. Any
    /// other operation went through unless the reply says that it failed.
    pub open spec fn outcome_of(&self, reply: Reply) -> Outcome {
        if self.engine().due() == Some(Op::Read) {
            match reply {
                Reply::Data(bytes) => if parse_snapshot::<K, V>(bytes@) is Some {
                    Outcome::Success
                } else {
                    Outcome::Rejected
                },
                _ => Outcome::Failure,
            }
        } else {
            match reply {
                Reply::Failed => Outcome::Failure,
                _ => Outcome::Success,
            }
        }
    }

    /// The mapping in memory once `reply` is taken in: what a read has
    /// delivered replaces what was there, as soon as it is delivered.
    pub open spec fn taken_in(&self, reply: Reply) -> Map<K::Model, V::Model> {
        if self.engine().due() == Some(Op::Read) {
            match reply {
                Reply::Data(bytes) => match parse_snapshot::<K, V>(bytes@) {
                    Some(m) => m,
                    None => self@,
                },
                _ => self@,
            }
        } else {
            self@
        }
    }

    /// A store at rest with an empty table, whose steps get `limit` attempts.
    pub fn with_limit(limit: u32) -> (r: Self)
        ensures
            r@ == Map::<K::Model, V::Model>::empty(),
            r.engine() == Engine::new_spec(limit),
            r.task() is None,
            r.payload().len() == 0,
    {
        KV { table: Table::new(), engine: Engine::new(limit), payload: Vec::new(), task: None }
    }

    /// The table as it stands in memory, without a look at the file.
    pub fn cached(&self) -> (r: &Table<K, V>)
        ensures
            *r == self.table(),
    {
        &self.table
    }

    /// Whether a task is under way.
    pub fn is_busy(&self) -> (r: bool)
        ensures
            r == self.engine().active(),
    {
        self.engine.request().is_some()
    }

    fn request(&self) -> (r: Option<Request>)
        ensures
            match r {
                Some(request) => self.asks(request),
                None => self.engine().due() is None,
            },
    {
        match self.engine.request() {
            Some(Op::Write) => Some(Request { op: Op::Write, bytes: self.payload.clone() }),
            Some(op) => Some(Request { op, bytes: Vec::new() }),
            None => None,
        }
    }

    /// Whether the store has gone on to writing back the mapping `m`: it
    /// holds `m`, and either the table cannot be laid out, which ends the
    /// task, or it can, and its snapshot is the payload of a run that stores
    /// it.
    pub open spec fn writes_back(
        &self,
        m: Map<K::Model, V::Model>,
        loaded: Engine,
        progress: Progress<K, V>,
    ) -> bool {
        &&& self@ == m
        &&& self.task() is None
        &&& match progress {
            Progress::Next(request) => {
                &&& self.asks(request)
                &&& self.engine() == loaded.begun(Plan::Store, false)
                &&& all_accepted(self.table().entries())
                &&& all_fit(self.table().entries())
                &&& self.payload() == snapshot_bytes(self.table().entries())
                &&& parse_snapshot::<K, V>(self.payload()) == Some(self@)
            },
            Progress::Finished(result) => {
                &&& self.engine() == loaded
                &&& !all_accepted(self.table().entries())
                &&& result matches Err(e)
                &&& e == Error { kind: Fault::EncodeFailed, exhausted: false }
            },
        }
    }

    /// Whether `self` and `progress` are what taking `reply` in leads to
    /// from `before`.
    ///
    /// Where no run is under way, nothing changes. Otherwise the reply moves
    /// the protocol one step on. While the run of file operations is not
    /// over, the next one is due. A run that failed ends the task with its
    /// failure. When the load of a task is over, a lookup or a listing is
    /// answered from the table as it was loaded, and a change is made to the
    /// table and the store goes on to write it back. When the write is over,
    /// so is the task.
    pub open spec fn follows(&self, before: Self, reply: Reply, progress: Progress<K, V>) -> bool {
        let stepped = before.engine().step(before.outcome_of(reply));
        let m = before.taken_in(reply);
        if !before.engine().active() {
            &&& progress matches Progress::Finished(Ok(Answer::Nothing))
            &&& self.engine() == before.engine()
            &&& self@ == before@
            &&& self.task() == before.task()
            &&& self.payload() == before.payload()
        } else {
            self.follows_step(before, stepped, m, progress)
        }
    }

    /// Whether `self` and `progress` are what follows from `before` when the
    /// protocol has moved on to `stepped` and the mapping in memory is `m`.
    pub open spec fn follows_step(
        &self,
        before: Self,
        stepped: Engine,
        m: Map<K::Model, V::Model>,
        progress: Progress<K, V>,
    ) -> bool {
        match stepped.outcome() {
            None => {
                &&& progress matches Progress::Next(request)
                &&& self.asks(request)
                &&& self.engine() == stepped
                &&& self@ == m
                &&& self.task() == before.task()
                &&& self.payload() == before.payload()
            },
            Some(Err(e)) => {
                &&& progress matches Progress::Finished(Err(failure))
                &&& failure == e
                &&& self.engine() == stepped
                &&& self@ == m
                &&& self.task() is None
                &&& self.payload() == before.payload()
            },
            Some(Ok(())) => if before.engine().plan == Plan::Store {
                &&& progress matches Progress::Finished(Ok(Answer::Nothing))
                &&& self.engine() == stepped
                &&& self@ == m
                &&& self.task() is None
                &&& self.payload() == before.payload()
            } else {
                match before.task() {
                    Some(Task::Get(k)) => {
                        &&& progress matches Progress::Finished(Ok(Answer::Value(found)))
                        &&& is_lookup(found, m, k.model())
                        &&& self.engine() == stepped
                        &&& self@ == m
                        &&& self.task() is None
                    },
                    Some(Task::Keys) => {
                        &&& progress matches Progress::Finished(Ok(Answer::Keys(keys)))
                        &&& lists_keys(keys@, m)
                        &&& m.dom().finite()
                        &&& keys@.len() == m.dom().len()
                        &&& self.engine() == stepped
                        &&& self@ == m
                        &&& self.task() is None
                    },
                    Some(Task::Insert(k, v)) => self.writes_back(
                        m.insert(k.model(), v.model()),
                        stepped,
                        progress,
                    ),
                    Some(Task::Remove(k)) => self.writes_back(
                        m.remove(k.model()),
                        stepped,
                        progress,
                    ),
                    _ => {
                        &&& progress matches Progress::Finished(Ok(Answer::Nothing))
                        &&& self.engine() == stepped
                        &&& self@ == m
                        &&& self.task() is None
                    },
                }
            },
        }
    }

    /// Begins `task`, and says which file operation is due first. A task
    /// that was under way is given up.
    pub fn begin(&mut self, task: Task<K, V>) -> (r: Request)
        ensures
            final(self).asks(r),
            final(self).engine() == old(self).engine().begun(plan_of(task), false),
            final(self).task() == Some(task),
            final(self)@ == old(self)@,
            final(self).payload() == old(self).payload(),
    {
        let is_open = match &task {
            Task::Open => true,
            _ => false,
        };
        self.engine = self.engine.begin(
            if is_open {
                Plan::Open
            } else {
                Plan::Load
            },
            false,
        );
        self.task = Some(task);
        match self.request() {
            Some(request) => request,
            None => vstd::pervasive::unreached(),
        }
    }

    fn persist(&mut self) -> (r: Progress<K, V>)
        requires
            old(self).task() is None,
        ensures
            final(self).writes_back(old(self)@, old(self).engine(), r),
    {
        match self.table.encode() {
            Ok(bytes) => {
                self.payload = bytes;
                self.engine = self.engine.begin(Plan::Store, false);
                match self.request() {
                    Some(request) => Progress::Next(request),
                    None => vstd::pervasive::unreached(),
                }
            },
            Err(_) => Progress::Finished(
                Err(Error { kind: Fault::EncodeFailed, exhausted: false }),
            ),
        }
    }

    /// Takes in how the file operation that was due went, and says what
    /// follows.
    pub fn advance(&mut self, reply: Reply) -> (r: Progress<K, V>)
        ensures
            final(self).follows(*old(self), reply, r),
    {
        let before = self.engine;
        let reading = match self.engine.request() {
            Some(Op::Read) => true,
            Some(_) => false,
            None => {
                return Progress::Finished(Ok(Answer::Nothing));
            },
        };
        let outcome = if reading {
            match reply {
                Reply::Data(bytes) => match Table::<K, V>::decode(bytes.as_slice()) {
                    Ok(table) => {
                        self.table = table;
                        Outcome::Success
                    },
                    Err(_) => Outcome::Rejected,
                },
                _ => Outcome::Failure,
            }
        } else {
            match reply {
                Reply::Failed => Outcome::Failure,
                _ => Outcome::Success,
            }
        };
        self.engine = self.engine.advance(outcome);
        match self.engine.result() {
            None => match self.request() {
                Some(request) => Progress::Next(request),
                None => vstd::pervasive::unreached(),
            },
            Some(Err(e)) => {
                self.task = None;
                Progress::Finished(Err(e))
            },
            Some(Ok(())) => {
                let mut task: Option<Task<K, V>> = None;
                core::mem::swap(&mut self.task, &mut task);
                let stored = match before.plan {
                    Plan::Store => true,
                    _ => false,
                };
                if stored {
                    return Progress::Finished(Ok(Answer::Nothing));
                }
                match task {
                    Some(Task::Get(k)) => Progress::Finished(
                        Ok(Answer::Value(self.table.get(&k))),
                    ),
                    Some(Task::Keys) => Progress::Finished(Ok(Answer::Keys(self.table.keys()))),
                    Some(Task::Insert(k, v)) => {
                        self.table.insert(k, v);
                        self.persist()
                    },
                    Some(Task::Remove(k)) => {
                        self.table.remove(&k);
                        self.persist()
                    },
                    _ => Progress::Finished(Ok(Answer::Nothing)),
                }
            },
        }
    }

    /// Whether `result` is in order as the end of `task` on a store that
    /// ends up as `self`, the file operations having gone through `io`.
    ///
    /// A task that went through has read a snapshot. A lookup and a listing
    /// are answered from it, and it is what the table ends up as. A change is
    /// made to it, and the snapshot of the outcome was written and reads back
    /// as the table. Only a table that could not be laid out fails at once;
    /// every other failure comes after the attempts were used up.
    pub open spec fn settles<F: Fn(Request) -> Reply>(
        &self,
        task: Task<K, V>,
        io: &F,
        result: Result<Answer<K, V>, Error>,
    ) -> bool {
        match result {
            Ok(answer) => match task {
                Task::Open => answer is Nothing && delivers::<K, V, F>(io, self@),
                Task::Get(k) => {
                    &&& answer matches Answer::Value(found)
                    &&& is_lookup(found, self@, k.model())
                    &&& delivers::<K, V, F>(io, self@)
                },
                Task::Keys => {
                    &&& answer matches Answer::Keys(keys)
                    &&& lists_keys(keys@, self@)
                    &&& self@.dom().finite()
                    &&& keys@.len() == self@.dom().len()
                    &&& delivers::<K, V, F>(io, self@)
                },
                Task::Insert(k, v) => {
                    &&& answer is Nothing
                    &&& exists|m: Map<K::Model, V::Model>|
                        #[trigger] delivers::<K, V, F>(io, m) && self@ == m.insert(
                            k.model(),
                            v.model(),
                        )
                    &&& parse_snapshot::<K, V>(self.payload()) == Some(self@)
                    &&& accepts(io, self.payload())
                },
                Task::Remove(k) => {
                    &&& answer is Nothing
                    &&& exists|m: Map<K::Model, V::Model>|
                        #[trigger] delivers::<K, V, F>(io, m) && self@ == m.remove(k.model())
                    &&& parse_snapshot::<K, V>(self.payload()) == Some(self@)
                    &&& accepts(io, self.payload())
                },
            },
            Err(e) => {
                &&& e.exhausted <==> e.kind != Fault::EncodeFailed
                &&& {
                    ||| may_fail_with(plan_of(task), e.kind)
                    ||| (task is Insert || task is Remove) && (e.kind == Fault::EncodeFailed
                        || may_fail_with(Plan::Store, e.kind))
                }
            },
        }
    }

    /// Carries `task` out from beginning to end: asks `io` for one file
    /// operation after the other and takes in what it replies.
    ///
    /// Whatever `io` replies, the task comes to an end, and the store then
    /// holds no lock.
    pub fn run<F: Fn(Request) -> Reply>(&mut self, task: Task<K, V>, io: &F) -> (r: Result<
        Answer<K, V>,
        Error,
    >)
        requires
            forall|request: Request| call_requires(io, (request,)),
        ensures
            final(self).settles(task, io, r),
            !final(self).engine().active(),
            final(self).engine().lock == LockState::Unlocked,
    {
        let ghost asked = task;
        proof {
            lemma_begun_wf(self.engine(), plan_of(task), false);
        }
        let mut request = self.begin(task);
        loop
            invariant
                forall|request: Request| call_requires(io, (request,)),
                asked == task,
                self.asks(request),
                self.engine().wf(),
                self.engine().active(),
                self.engine().own_lock,
                self.task() is Some ==> self.task() == Some(asked) && self.engine().plan
                    == plan_of(asked),
                self.task() is Some && self.engine().stage == Stage::Unlocking
                    && self.engine().fault is None ==> delivers::<K, V, F>(io, self@),
                self.task() is None ==> self.engine().plan == Plan::Store && parse_snapshot::<
                    K,
                    V,
                >(self.payload()) == Some(self@) && match asked {
                    Task::Insert(k, v) => exists|m: Map<K::Model, V::Model>|
                        #[trigger] delivers::<K, V, F>(io, m) && self@ == m.insert(
                            k.model(),
                            v.model(),
                        ),
                    Task::Remove(k) => exists|m: Map<K::Model, V::Model>|
                        #[trigger] delivers::<K, V, F>(io, m) && self@ == m.remove(k.model()),
                    _ => false,
                },
                self.task() is None && (self.engine().stage == Stage::Flushing || (
                self.engine().stage == Stage::Unlocking && self.engine().fault is None))
                    ==> accepts(io, self.payload()),
            decreases
                    (if self.task() is Some {
                        1nat
                    } else {
                        0nat
                    }),
                    self.engine().rank().0,
                    self.engine().rank().1,
                    self.engine().rank().2,
                    self.engine().rank().3,
        {
            let ghost sent = request;
            let ghost before = *self;
            let reply = io(request);
            proof {
                assert(call_ensures(io, (sent,), reply));
                let outcome = self.outcome_of(reply);
                lemma_step_wf(self.engine(), outcome);
                lemma_step_lowers_rank(self.engine(), outcome);
                lemma_begun_wf(self.engine().step(outcome), Plan::Store, false);
            }
            match self.advance(reply) {
                Progress::Next(next) => {
                    request = next;
                },
                Progress::Finished(result) => {
                    return result;
                },
            }
        }
    }

    /// Opens the store: has the backing file opened, or created if it is not
    /// there, and loads what it holds. A file without content gives the empty
    /// table; content that is no snapshot fails the opening.
    pub fn new<F: Fn(Request) -> Reply>(io: &F) -> (r: Result<Self, Error>)
        requires
            forall|request: Request| call_requires(io, (request,)),
        ensures
            match r {
                Ok(store) => delivers::<K, V, F>(io, store@) && !store.engine().active()
                    && store.engine().lock == LockState::Unlocked,
                Err(e) => e.exhausted && may_fail_with(Plan::Open, e.kind),
            },
    {
        let mut store: KV<K, V> = KV::with_limit(DEFAULT_ATTEMPTS);
        match store.run(Task::Open, io) {
            Ok(_) => Ok(store),
            Err(e) => Err(e),
        }
    }

    /// Refreshes the table from the file, stores `value` under `key`, and
    /// writes the table back.
    pub fn insert<F: Fn(Request) -> Reply>(&mut self, key: K, value: V, io: &F) -> (r: Result<
        (),
        Error,
    >)
        requires
            forall|request: Request| call_requires(io, (request,)),
        ensures
            r is Ok ==> final(self).settles(Task::Insert(key, value), io, Ok(Answer::Nothing)),
            r matches Err(e) ==> (e.exhausted <==> e.kind != Fault::EncodeFailed) && e.kind
                != Fault::OpenFailed,
            !final(self).engine().active(),
            final(self).engine().lock == LockState::Unlocked,
    {
        match self.run(Task::Insert(key, value), io) {
            Ok(_) => Ok(()),
            Err(e) => Err(e),
        }
    }

    /// Refreshes the table from the file and gives a copy of the value
    /// stored under `key`, or `None` where there is none.
    pub fn get<F: Fn(Request) -> Reply>(&mut self, key: &K, io: &F) -> (r: Result<Option<V>, Error>)
        requires
            forall|request: Request| call_requires(io, (request,)),
        ensures
            r matches Ok(found) ==> is_lookup(found, final(self)@, key.model()) && delivers::<
                K,
                V,
                F,
            >(io, final(self)@),
            r matches Err(e) ==> e.exhausted && may_fail_with(Plan::Load, e.kind),
            !final(self).engine().active(),
            final(self).engine().lock == LockState::Unlocked,
    {
        match self.run(Task::Get(key.duplicate()), io) {
            Ok(Answer::Value(found)) => Ok(found),
            Ok(_) => Ok(None),
            Err(e) => Err(e),
        }
    }

    /// Refreshes the table from the file, takes `key` out of it, and writes
    /// the table back. A key that is not there is no error: the table is
    /// written back as it was loaded.
    pub fn remove<F: Fn(Request) -> Reply>(&mut self, key: &K, io: &F) -> (r: Result<(), Error>)
        requires
            forall|request: Request| call_requires(io, (request,)),
        ensures
            r is Ok ==> final(self).settles(Task::Remove(*key), io, Ok(Answer::Nothing)),
            r matches Err(e) ==> (e.exhausted <==> e.kind != Fault::EncodeFailed) && e.kind
                != Fault::OpenFailed,
            !final(self).engine().active(),
            final(self).engine().lock == LockState::Unlocked,
    {
        match self.run(Task::Remove(key.duplicate()), io) {
            Ok(_) => Ok(()),
            Err(e) => Err(e),
        }
    }

    /// Refreshes the table from the file and gives copies of all keys, each
    /// once, in no particular order.
    pub fn keys<F: Fn(Request) -> Reply>(&mut self, io: &F) -> (r: Result<Vec<K>, Error>)
        requires
            forall|request: Request| call_requires(io, (request,)),
        ensures
            r matches Ok(keys) ==> lists_keys(keys@, final(self)@) && final(self)@.dom().finite()
                && keys@.len() == final(self)@.dom().len() && delivers::<K, V, F>(
                io,
                final(self)@,
            ),
            r matches Err(e) ==> e.exhausted && may_fail_with(Plan::Load, e.kind),
            !final(self).engine().active(),
            final(self).engine().lock == LockState::Unlocked,
    {
        match self.run(Task::Keys, io) {
            Ok(Answer::Keys(keys)) => Ok(keys),
            Ok(_) => Ok(Vec::new()),
            Err(e) => Err(e),
        }
    }
}

} // verus!
