//! What the store does on a file that takes every operation.
//!
//! A run is quiet when no file operation fails and nobody else touches the
//! file: a read delivers what the file holds, a write leaves in it what was
//! written, and everything else simply goes through. The theorems of this
//! module say how the operations of the store end on quiet runs.

use crate::codec::{Codec, Key};
use crate::engine::{Engine, Op, Outcome, Plan, Stage};
use crate::error::{Error, Fault};
use crate::snapshot::parse_snapshot;
use crate::store::{is_lookup, plan_of, Answer, Progress, Reply, Task, KV};
use crate::table::lists_keys;
use vstd::prelude::*;

verus! {

/// Whether `first` is a store on which `task` has just begun, `start` being
/// the store before.
pub open spec fn begins<K: Key, V: Codec>(
    first: KV<K, V>,
    start: KV<K, V>,
    task: Task<K, V>,
) -> bool {
    &&& first.engine() == start.engine().begun(plan_of(task), false)
    &&& first.task() == Some(task)
    &&& first@ == start@
    &&& first.payload() == start.payload()
}

/// One step of a quiet run: the file operation that is due goes through on a
/// file that holds `content`, the store takes the reply in, and the file
/// holds `content_after`.
pub open spec fn quiet_step<K: Key, V: Codec>(
    before: KV<K, V>,
    content: Seq<u8>,
    reply: Reply,
    after: KV<K, V>,
    progress: Progress<K, V>,
    content_after: Seq<u8>,
) -> bool {
    &&& if before.engine().due() == Some(Op::Read) {
        reply matches Reply::Data(bytes) && bytes@ == content
    } else {
        reply is Done
    }
    &&& after.follows(before, reply, progress)
    &&& content_after == if before.engine().due() == Some(Op::Write) {
        before.payload()
    } else {
        content
    }
}

/// A record of a quiet run of one task from its beginning to its end: the
/// store and the content of the file before each step and after the last,
/// the replies, and what the store said to each.
pub struct Record<K: Key, V: Codec> {
    pub stores: Seq<KV<K, V>>,
    pub contents: Seq<Seq<u8>>,
    pub replies: Seq<Reply>,
    pub steps: Seq<Progress<K, V>>,
}

impl<K: Key, V: Codec> Record<K, V> {
    /// The number of file operations of the run.
    pub open spec fn len(self) -> int {
        self.replies.len() as int
    }

    /// Whether this is the record of a quiet run of `task` on the store
    /// `start` and a file that holds `content`.
    pub open spec fn of(self, start: KV<K, V>, task: Task<K, V>, content: Seq<u8>) -> bool {
        &&& self.len() > 0
        &&& self.stores.len() == self.len() + 1
        &&& self.contents.len() == self.len() + 1
        &&& self.steps.len() == self.len()
        &&& begins(self.stores[0], start, task)
        &&& self.contents[0] == content
        &&& forall|i: int| 0 <= i < self.len() ==> #[trigger] self.step_at(i)
        &&& forall|i: int| 0 <= i < self.len() - 1 ==> #[trigger] self.steps[i] is Next
        &&& self.steps[self.len() - 1] is Finished
    }

    /// Whether step `i` of the record is a step of a quiet run.
    pub open spec fn step_at(self, i: int) -> bool {
        quiet_step(
            self.stores[i],
            self.contents[i],
            self.replies[i],
            self.stores[i + 1],
            self.steps[i],
            self.contents[i + 1],
        )
    }

    /// The store at the end of the run.
    pub open spec fn store(self) -> KV<K, V> {
        self.stores[self.len()]
    }

    /// The content of the file at the end of the run.
    pub open spec fn content(self) -> Seq<u8> {
        self.contents[self.len()]
    }

    /// How the task ended.
    pub open spec fn result(self) -> Result<Answer<K, V>, Error> {
        self.steps[self.len() - 1]->Finished_0
    }
}

/// The load that every task begins with: on a file that holds a snapshot of
/// `m`, the first three file operations take the lock, rewind and read, and
/// the lock is due to be given back with `m` in memory. The file is as it
/// was.
pub proof fn lemma_quiet_load<K: Key, V: Codec>(
    run: Record<K, V>,
    start: KV<K, V>,
    task: Task<K, V>,
    content: Seq<u8>,
    m: Map<K::Model, V::Model>,
)
    requires
        run.of(start, task, content),
        !(task is Open),
        parse_snapshot::<K, V>(content) == Some(m),
    ensures
        run.len() >= 4,
        run.stores[3].engine().stage == Stage::Unlocking,
        run.stores[3].engine().fault is None,
        run.stores[3].engine().plan == Plan::Load,
        !run.stores[3].engine().paused,
        run.stores[3].task() == Some(task),
        run.stores[3]@ == m,
        run.contents[3] == content,
{
    assert(run.step_at(0));
    assert(run.steps[0] is Next);
    assert(run.step_at(1));
    assert(run.step_at(2));
    assert(run.steps[2] is Next);
}

/// Writing back: once a store, on a quiet run, has gone on to write its
/// table back at step `at`, five more file operations end the task in
/// success, and the file holds the snapshot that was laid out.
pub proof fn lemma_quiet_store<K: Key, V: Codec>(
    run: Record<K, V>,
    start: KV<K, V>,
    task: Task<K, V>,
    content: Seq<u8>,
    at: int,
)
    requires
        run.of(start, task, content),
        0 <= at < run.len(),
        run.stores[at].engine().plan == Plan::Store,
        run.stores[at].engine().stage == Stage::Locking,
        run.stores[at].engine().own_lock,
        !run.stores[at].engine().paused,
        run.stores[at].engine().fault is None,
    ensures
        run.len() == at + 5,
        run.result() matches Ok(Answer::Nothing),
        run.store()@ == run.stores[at]@,
        run.store().payload() == run.stores[at].payload(),
        run.content() == run.stores[at].payload(),
{
    assert(run.step_at(at));
    assert(run.steps[at] is Next);
    assert(run.step_at(at + 1));
    assert(run.steps[at + 1] is Next);
    assert(run.step_at(at + 2));
    assert(run.steps[at + 2] is Next);
    assert(run.step_at(at + 3));
    assert(run.steps[at + 3] is Next);
    assert(run.step_at(at + 4));
    assert(run.steps[at + 4] is Finished);
}

/// A lookup on a file that holds a snapshot is answered from that snapshot,
/// after four file operations, and leaves the file as it is.
pub proof fn lemma_quiet_get<K: Key, V: Codec>(
    run: Record<K, V>,
    start: KV<K, V>,
    key: K,
    content: Seq<u8>,
    m: Map<K::Model, V::Model>,
)
    requires
        run.of(start, Task::Get(key), content),
        parse_snapshot::<K, V>(content) == Some(m),
    ensures
        run.len() == 4,
        run.result() matches Ok(Answer::Value(found)) && is_lookup(found, m, key.model()),
        run.store()@ == m,
        run.content() == content,
{
    lemma_quiet_load(run, start, Task::Get(key), content, m);
    assert(run.step_at(3));
    assert(run.steps[3] is Finished);
}

/// A listing on a file that holds a snapshot gives the keys of that
/// snapshot, after four file operations, and leaves the file as it is.
pub proof fn lemma_quiet_keys<K: Key, V: Codec>(
    run: Record<K, V>,
    start: KV<K, V>,
    content: Seq<u8>,
    m: Map<K::Model, V::Model>,
)
    requires
        run.of(start, Task::Keys, content),
        parse_snapshot::<K, V>(content) == Some(m),
    ensures
        run.len() == 4,
        run.result() matches Ok(Answer::Keys(keys)) && lists_keys(keys@, m) && keys@.len()
            == m.dom().len(),
        run.store()@ == m,
        run.content() == content,
{
    lemma_quiet_load(run, start, Task::Keys, content, m);
    assert(run.step_at(3));
    assert(run.steps[3] is Finished);
}

/// Opening a store on a file that holds a snapshot, or nothing, goes
/// through after five file operations and brings the snapshot into memory.
pub proof fn lemma_quiet_open<K: Key, V: Codec>(
    run: Record<K, V>,
    start: KV<K, V>,
    content: Seq<u8>,
    m: Map<K::Model, V::Model>,
)
    requires
        run.of(start, Task::Open, content),
        parse_snapshot::<K, V>(content) == Some(m),
    ensures
        run.len() == 5,
        run.result() matches Ok(Answer::Nothing),
        run.store()@ == m,
        run.content() == content,
{
    assert(run.step_at(0));
    assert(run.steps[0] is Next);
    assert(run.step_at(1));
    assert(run.steps[1] is Next);
    assert(run.step_at(2));
    assert(run.steps[2] is Next);
    assert(run.step_at(3));
    assert(run.steps[3] is Next);
    assert(run.step_at(4));
    assert(run.steps[4] is Finished);
}

/// An insert on a file that holds a snapshot of `m` either fails at once
/// because the table cannot be laid out, and leaves the file as it is, or
/// goes through after nine file operations, and then the file holds a
/// snapshot of `m` with the value under the key. Either way that mapping is
/// what the store holds in memory.
pub proof fn lemma_quiet_insert<K: Key, V: Codec>(
    run: Record<K, V>,
    start: KV<K, V>,
    key: K,
    value: V,
    content: Seq<u8>,
    m: Map<K::Model, V::Model>,
)
    requires
        run.of(start, Task::Insert(key, value), content),
        parse_snapshot::<K, V>(content) == Some(m),
    ensures
        run.store()@ == m.insert(key.model(), value.model()),
        match run.result() {
            Ok(answer) => {
                &&& answer is Nothing
                &&& run.len() == 9
                &&& parse_snapshot::<K, V>(run.content()) == Some(run.store()@)
            },
            Err(e) => {
                &&& e == Error { kind: Fault::EncodeFailed, exhausted: false }
                &&& run.len() == 4
                &&& run.content() == content
            },
        },
{
    lemma_quiet_load(run, start, Task::Insert(key, value), content, m);
    assert(run.step_at(3));
    if run.steps[3] is Next {
        lemma_quiet_store(run, start, Task::Insert(key, value), content, 4);
    }
}

/// A removal on a file that holds a snapshot of `m` either fails at once
/// because the table cannot be laid out, and leaves the file as it is, or
/// goes through after nine file operations, and then the file holds a
/// snapshot of `m` without the key. Either way that mapping is what the
/// store holds in memory.
pub proof fn lemma_quiet_remove<K: Key, V: Codec>(
    run: Record<K, V>,
    start: KV<K, V>,
    key: K,
    content: Seq<u8>,
    m: Map<K::Model, V::Model>,
)
    requires
        run.of(start, Task::Remove(key), content),
        parse_snapshot::<K, V>(content) == Some(m),
    ensures
        run.store()@ == m.remove(key.model()),
        match run.result() {
            Ok(answer) => {
                &&& answer is Nothing
                &&& run.len() == 9
                &&& parse_snapshot::<K, V>(run.content()) == Some(run.store()@)
            },
            Err(e) => {
                &&& e == Error { kind: Fault::EncodeFailed, exhausted: false }
                &&& run.len() == 4
                &&& run.content() == content
            },
        },
{
    lemma_quiet_load(run, start, Task::Remove(key), content, m);
    assert(run.step_at(3));
    if run.steps[3] is Next {
        lemma_quiet_store(run, start, Task::Remove(key), content, 4);
    }
}

/// Taking out a key that is not there changes nothing: the removal does not
/// fail on the file, the store holds the mapping that the file held, and
/// where the removal went through the file holds that mapping still.
pub proof fn theorem_remove_absent<K: Key, V: Codec>(
    run: Record<K, V>,
    start: KV<K, V>,
    key: K,
    content: Seq<u8>,
    m: Map<K::Model, V::Model>,
)
    requires
        run.of(start, Task::Remove(key), content),
        parse_snapshot::<K, V>(content) == Some(m),
        !m.contains_key(key.model()),
    ensures
        run.store()@ == m,
        parse_snapshot::<K, V>(run.content()) == Some(m),
        run.result() matches Err(e) ==> e.kind == Fault::EncodeFailed,
{
    lemma_quiet_remove(run, start, key, content, m);
    assert(m.remove(key.model()) =~= m);
}

/// Read your writes: after an insert that went through, a lookup of the
/// same key by the same store, with nobody else writing in between, finds
/// the value that was inserted.
pub proof fn theorem_read_your_writes<K: Key, V: Codec>(
    insert: Record<K, V>,
    get: Record<K, V>,
    start: KV<K, V>,
    key: K,
    value: V,
    asked: K,
    content: Seq<u8>,
)
    requires
        insert.of(start, Task::Insert(key, value), content),
        insert.result() is Ok,
        asked.model() == key.model(),
        get.of(insert.store(), Task::Get(asked), insert.content()),
    ensures
        get.result() matches Ok(Answer::Value(Some(found))) && found.model() == value.model(),
{
    if parse_snapshot::<K, V>(content) is None {
        theorem_spoiled_file(insert, start, Task::Insert(key, value), content);
    }
    let m = parse_snapshot::<K, V>(content)->Some_0;
    lemma_quiet_insert(insert, start, key, value, content, m);
    lemma_quiet_get(get, insert.store(), asked, insert.content(), insert.store()@);
}

/// What one store has inserted, another finds: after an insert that went
/// through, a store that is opened on the same file, with nobody else
/// writing in between, finds the value under the key.
pub proof fn theorem_seen_by_others<K: Key, V: Codec>(
    insert: Record<K, V>,
    open: Record<K, V>,
    get: Record<K, V>,
    writer: KV<K, V>,
    reader: KV<K, V>,
    key: K,
    value: V,
    asked: K,
    content: Seq<u8>,
)
    requires
        insert.of(writer, Task::Insert(key, value), content),
        insert.result() is Ok,
        open.of(reader, Task::Open, insert.content()),
        asked.model() == key.model(),
        get.of(open.store(), Task::Get(asked), open.content()),
    ensures
        open.result() is Ok,
        get.result() matches Ok(Answer::Value(Some(found))) && found.model() == value.model(),
{
    if parse_snapshot::<K, V>(content) is None {
        theorem_spoiled_file(insert, writer, Task::Insert(key, value), content);
    }
    let m = parse_snapshot::<K, V>(content)->Some_0;
    lemma_quiet_insert(insert, writer, key, value, content, m);
    lemma_quiet_open(open, reader, insert.content(), insert.store()@);
    lemma_quiet_get(get, open.store(), asked, open.content(), insert.store()@);
}

/// A file without content is no error: a store opens on it, with an empty
/// table.
pub proof fn theorem_open_empty<K: Key, V: Codec>(run: Record<K, V>, start: KV<K, V>)
    requires
        run.of(start, Task::Open, Seq::empty()),
    ensures
        run.result() matches Ok(Answer::Nothing),
        run.store()@ == Map::<K::Model, V::Model>::empty(),
        run.content() == Seq::<u8>::empty(),
{
    lemma_quiet_open(run, start, Seq::empty(), Map::empty());
}

/// What holds of the protocol all through a quiet load of bytes that are no
/// snapshot: the lock is given back only because the bytes were rejected,
/// and the run cannot end but in that failure.
pub open spec fn rejecting(e: Engine) -> bool {
    &&& e.wf()
    &&& e.active()
    &&& e.plan != Plan::Store
    &&& e.own_lock
    &&& (e.fault is Some ==> e.fault == Some(Fault::DecodeFailed))
    &&& (e.stage == Stage::Unlocking ==> e.fault is Some)
}

/// One step of a load whose reads are rejected and whose other operations go
/// through: the load goes on as before, or ends in a failure to decode.
pub proof fn lemma_rejecting_step(e: Engine, outcome: Outcome)
    requires
        rejecting(e),
        outcome == if e.due() == Some(Op::Read) {
            Outcome::Rejected
        } else {
            Outcome::Success
        },
    ensures
        e.step(outcome).active() ==> rejecting(e.step(outcome)),
        !e.step(outcome).active() ==> e.step(outcome).outcome() == Some(
            Err::<(), Error>(Error { kind: Fault::DecodeFailed, exhausted: true }),
        ),
{
}

/// All through a quiet run on a file whose bytes are no snapshot, the
/// protocol is loading, the file is as it was, and so is the table in memory.
pub proof fn lemma_quiet_rejecting<K: Key, V: Codec>(
    run: Record<K, V>,
    start: KV<K, V>,
    task: Task<K, V>,
    content: Seq<u8>,
    i: int,
)
    requires
        run.of(start, task, content),
        parse_snapshot::<K, V>(content) is None,
        0 <= i < run.len(),
    ensures
        rejecting(run.stores[i].engine()),
        run.contents[i] == content,
        run.stores[i]@ == start@,
        run.stores[i].task() == Some(task),
    decreases i,
{
    if i > 0 {
        lemma_quiet_rejecting(run, start, task, content, i - 1);
        assert(run.step_at(i - 1));
        let before = run.stores[i - 1];
        lemma_rejecting_step(before.engine(), before.outcome_of(run.replies[i - 1]));
        assert(run.steps[i - 1] is Next);
    }
}

/// A file that holds bytes which are no snapshot is an error: whatever the
/// task, it ends in a failure to decode, after every round was used up, and
/// leaves the file and the table in memory as they were.
pub proof fn theorem_spoiled_file<K: Key, V: Codec>(
    run: Record<K, V>,
    start: KV<K, V>,
    task: Task<K, V>,
    content: Seq<u8>,
)
    requires
        run.of(start, task, content),
        parse_snapshot::<K, V>(content) is None,
    ensures
        run.result() == Err::<Answer<K, V>, Error>(
            Error { kind: Fault::DecodeFailed, exhausted: true },
        ),
        run.content() == content,
        run.store()@ == start@,
{
    let last = run.len() - 1;
    lemma_quiet_rejecting(run, start, task, content, last);
    assert(run.step_at(last));
    let before = run.stores[last];
    lemma_rejecting_step(before.engine(), before.outcome_of(run.replies[last]));
}

} // verus!
