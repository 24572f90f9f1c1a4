//! The in-memory table: keys with their values, no key twice.

use crate::codec::{shifted, Codec, EncodeFailed, Key};
use crate::snapshot::{
    all_accepted, all_fit, entries_bytes, lemma_snapshot_round_trip, parse_entries,
    parse_snapshot, snapshot_bytes,
};
use crate::wire::serialized_u64;
use vstd::prelude::*;

verus! {

/// The mapping that results from `acc` when the entries of `es` from index
/// `from` on are put into it one after the other; a later entry replaces an
/// earlier one with the same key.
pub open spec fn put_all<K: Codec, V: Codec>(
    acc: Map<K::Model, V::Model>,
    es: Seq<(K, V)>,
    from: int,
) -> Map<K::Model, V::Model>
    decreases es.len() - from,
{
    if 0 <= from < es.len() {
        put_all(acc.insert(es[from].0.model(), es[from].1.model()), es, from + 1)
    } else {
        acc
    }
}

/// The mapping that a sequence of entries stands for.
pub open spec fn map_of<K: Codec, V: Codec>(es: Seq<(K, V)>) -> Map<K::Model, V::Model> {
    put_all(Map::empty(), es, 0)
}

/// No two entries of `es` have the same key.
pub open spec fn distinct_keys<K: Codec, V: Codec>(es: Seq<(K, V)>) -> bool {
    forall|i: int, j: int|
        0 <= i < j < es.len() ==> (#[trigger] es[i]).0.model() != (#[trigger] es[j]).0.model()
}

/// Whether `keys` lists the keys of `m`, each once.
pub open spec fn lists_keys<K: Codec, M>(keys: Seq<K>, m: Map<K::Model, M>) -> bool {
    &&& forall|i: int| 0 <= i < keys.len() ==> m.contains_key((#[trigger] keys[i]).model())
    &&& forall|i: int, j: int|
        0 <= i < j < keys.len() ==> (#[trigger] keys[i]).model() != (#[trigger] keys[j]).model()
    &&& forall|k: K::Model|
        m.contains_key(k) ==> exists|i: int| 0 <= i < keys.len() && (#[trigger] keys[i]).model() == k
}

/// Whether some entry of `es` from index `from` on has the key `k`.
pub open spec fn has_key_from<K: Codec, V: Codec>(es: Seq<(K, V)>, from: int, k: K::Model) -> bool {
    exists|i: int| from <= i < es.len() && (#[trigger] es[i]).0.model() == k
}

/// Whether `put_all` leaves the key `k` in the mapping, and with which
/// value where no key occurs twice.
pub proof fn lemma_put_all<K: Codec, V: Codec>(
    acc: Map<K::Model, V::Model>,
    es: Seq<(K, V)>,
    from: int,
    k: K::Model,
)
    requires
        0 <= from <= es.len(),
    ensures
        put_all(acc, es, from).contains_key(k) <==> acc.contains_key(k) || has_key_from(
            es,
            from,
            k,
        ),
        acc.contains_key(k) && !has_key_from(es, from, k) ==> put_all(acc, es, from)[k] == acc[k],
        distinct_keys(es) ==> forall|i: int|
            from <= i < es.len() && (#[trigger] es[i]).0.model() == k ==> put_all(acc, es, from)[k]
                == es[i].1.model(),
    decreases es.len() - from,
{
    if from < es.len() {
        let first = es[from].0.model();
        let next = acc.insert(first, es[from].1.model());
        lemma_put_all(next, es, from + 1, k);
        assert(has_key_from(es, from, k) <==> first == k || has_key_from(es, from + 1, k)) by {
            if has_key_from(es, from, k) {
                let i = choose|i: int| from <= i < es.len() && (#[trigger] es[i]).0.model() == k;
                if i > from {
                    assert(from + 1 <= i < es.len() && es[i].0.model() == k);
                }
            }
            if has_key_from(es, from + 1, k) {
                let i = choose|i: int|
                    from + 1 <= i < es.len() && (#[trigger] es[i]).0.model() == k;
                assert(from <= i < es.len() && es[i].0.model() == k);
            }
            if first == k {
                assert(from <= from < es.len() && es[from].0.model() == k);
            }
        }
        if distinct_keys(es) {
            assert forall|i: int|
                from <= i < es.len() && (#[trigger] es[i]).0.model() == k implies put_all(
                acc,
                es,
                from,
            )[k] == es[i].1.model() by {
                if i == from {
                    if has_key_from(es, from + 1, k) {
                        let j = choose|j: int|
                            from + 1 <= j < es.len() && (#[trigger] es[j]).0.model() == k;
                        assert(es[from].0.model() != es[j].0.model());
                    }
                }
            }
        }
    }
}

/// Where no key occurs twice, `put_all` adds as many keys as it puts entries,
/// as long as none of them was there before.
pub proof fn lemma_put_all_len<K: Codec, V: Codec>(
    acc: Map<K::Model, V::Model>,
    es: Seq<(K, V)>,
    from: int,
)
    requires
        0 <= from <= es.len(),
        distinct_keys(es),
        acc.dom().finite(),
        forall|i: int| from <= i < es.len() ==> !acc.contains_key((#[trigger] es[i]).0.model()),
    ensures
        put_all(acc, es, from).dom().finite(),
        put_all(acc, es, from).dom().len() == acc.dom().len() + es.len() - from,
    decreases es.len() - from,
{
    if from < es.len() {
        let first = es[from].0.model();
        let next = acc.insert(first, es[from].1.model());
        assert(next.dom() =~= acc.dom().insert(first));
        assert(!acc.contains_key(es[from].0.model()));
        assert forall|i: int| from + 1 <= i < es.len() implies !next.contains_key(
            (#[trigger] es[i]).0.model(),
        ) by {
            assert(es[from].0.model() != es[i].0.model());
        }
        lemma_put_all_len(next, es, from + 1);
    }
}

/// Putting an entry with a new key at the end adds that key to the mapping.
pub proof fn lemma_map_of_push<K: Codec, V: Codec>(es: Seq<(K, V)>, e: (K, V))
    requires
        distinct_keys(es),
        !has_key_from(es, 0, e.0.model()),
    ensures
        distinct_keys(es.push(e)),
        map_of(es.push(e)) == map_of(es).insert(e.0.model(), e.1.model()),
{
    let after = es.push(e);
    assert(distinct_keys(after)) by {
        assert forall|i: int, j: int| 0 <= i < j < after.len() implies (#[trigger] after[i]).0.model()
            != (#[trigger] after[j]).0.model() by {
            if j == es.len() {
                assert(0 <= i < es.len() && es[i].0.model() == after[i].0.model());
            } else {
                assert(es[i].0.model() != es[j].0.model());
            }
        }
    }
    let lhs = map_of(after);
    let rhs = map_of(es).insert(e.0.model(), e.1.model());
    assert forall|q: K::Model|
        (#[trigger] lhs.contains_key(q) <==> rhs.contains_key(q)) && (lhs.contains_key(q)
            ==> lhs[q] == rhs[q]) by {
        lemma_put_all::<K, V>(Map::empty(), es, 0, q);
        lemma_put_all::<K, V>(Map::empty(), after, 0, q);
        if has_key_from(es, 0, q) {
            let i = choose|i: int| 0 <= i < es.len() && (#[trigger] es[i]).0.model() == q;
            assert(0 <= i < after.len() && after[i].0.model() == q);
        }
        if q == e.0.model() {
            assert(0 <= es.len() < after.len() && after[es.len() as int].0.model() == q);
        }
        if has_key_from(after, 0, q) {
            let i = choose|i: int| 0 <= i < after.len() && (#[trigger] after[i]).0.model() == q;
            if i < es.len() {
                assert(0 <= i < es.len() && es[i].0.model() == q);
            }
        }
    }
    assert(lhs =~= rhs);
}

/// Replacing the value of an entry replaces the value of its key.
pub proof fn lemma_map_of_update<K: Codec, V: Codec>(es: Seq<(K, V)>, at: int, e: (K, V))
    requires
        distinct_keys(es),
        0 <= at < es.len(),
        e.0.model() == es[at].0.model(),
    ensures
        distinct_keys(es.update(at, e)),
        map_of(es.update(at, e)) == map_of(es).insert(e.0.model(), e.1.model()),
{
    let after = es.update(at, e);
    assert(distinct_keys(after)) by {
        assert forall|i: int, j: int| 0 <= i < j < after.len() implies (#[trigger] after[i]).0.model()
            != (#[trigger] after[j]).0.model() by {
            assert(es[i].0.model() != es[j].0.model());
        }
    }
    let lhs = map_of(after);
    let rhs = map_of(es).insert(e.0.model(), e.1.model());
    assert forall|q: K::Model|
        (#[trigger] lhs.contains_key(q) <==> rhs.contains_key(q)) && (lhs.contains_key(q)
            ==> lhs[q] == rhs[q]) by {
        lemma_put_all::<K, V>(Map::empty(), es, 0, q);
        lemma_put_all::<K, V>(Map::empty(), after, 0, q);
        if has_key_from(es, 0, q) {
            let i = choose|i: int| 0 <= i < es.len() && (#[trigger] es[i]).0.model() == q;
            assert(0 <= i < after.len() && after[i].0.model() == q);
        }
        if q == e.0.model() {
            assert(0 <= at < after.len() && after[at].0.model() == q);
        }
        if has_key_from(after, 0, q) {
            let i = choose|i: int| 0 <= i < after.len() && (#[trigger] after[i]).0.model() == q;
            assert(0 <= i < es.len() && es[i].0.model() == q);
        }
    }
    assert(lhs =~= rhs);
}

/// Taking an entry out takes its key out of the mapping.
pub proof fn lemma_map_of_remove<K: Codec, V: Codec>(es: Seq<(K, V)>, at: int)
    requires
        distinct_keys(es),
        0 <= at < es.len(),
    ensures
        distinct_keys(es.remove(at)),
        map_of(es.remove(at)) == map_of(es).remove(es[at].0.model()),
{
    let after = es.remove(at);
    let gone = es[at].0.model();
    assert forall|i: int| 0 <= i < after.len() implies #[trigger] after[i] == es[if i < at {
        i
    } else {
        i + 1
    }] by {}
    assert(distinct_keys(after)) by {
        assert forall|i: int, j: int| 0 <= i < j < after.len() implies (#[trigger] after[i]).0.model()
            != (#[trigger] after[j]).0.model() by {
            let a = if i < at { i } else { i + 1 };
            let b = if j < at { j } else { j + 1 };
            assert(es[a].0.model() != es[b].0.model());
        }
    }
    let lhs = map_of(after);
    let rhs = map_of(es).remove(gone);
    assert forall|q: K::Model|
        (#[trigger] lhs.contains_key(q) <==> rhs.contains_key(q)) && (lhs.contains_key(q)
            ==> lhs[q] == rhs[q]) by {
        lemma_put_all::<K, V>(Map::empty(), es, 0, q);
        lemma_put_all::<K, V>(Map::empty(), after, 0, q);
        if has_key_from(es, 0, q) && q != gone {
            let i = choose|i: int| 0 <= i < es.len() && (#[trigger] es[i]).0.model() == q;
            let a = if i < at { i } else { i - 1 };
            assert(0 <= a < after.len() && after[a].0.model() == q);
        }
        if has_key_from(after, 0, q) {
            let i = choose|i: int| 0 <= i < after.len() && (#[trigger] after[i]).0.model() == q;
            let a = if i < at { i } else { i + 1 };
            assert(0 <= a < es.len() && es[a].0.model() == q);
            if a < at {
                assert(es[a].0.model() != es[at].0.model());
            } else {
                assert(es[at].0.model() != es[a].0.model());
            }
        }
    }
    assert(lhs =~= rhs);
}

/// Raised when bytes that should be a snapshot are none.
#[derive(Debug, Clone, Copy, PartialEq, Eq, Structural)]
pub struct DecodeFailed;

/// Keys with their values, held in memory. No key occurs twice.
pub struct Table<K: Key, V: Codec> {
    entries: Vec<(K, V)>,
}

impl<K: Key, V: Codec> View for Table<K, V> {
    type V = Map<K::Model, V::Model>;

    /// The mapping that the table stands for.
    open spec fn view(&self) -> Map<K::Model, V::Model> {
        map_of(self.entries())
    }
}

impl<K: Key, V: Codec> Table<K, V> {
    #[verifier::type_invariant]
    spec fn no_key_twice(self) -> bool {
        distinct_keys(self.entries@)
    }

    /// The entries in the order in which they are held and laid out.
    pub closed spec fn entries(&self) -> Seq<(K, V)> {
        self.entries@
    }

    /// An empty table.
    pub fn new() -> (r: Self)
        ensures
            r@ == Map::<K::Model, V::Model>::empty(),
            r.entries().len() == 0,
    {
        Table { entries: Vec::new() }
    }

    /// The number of keys.
    pub fn len(&self) -> (r: usize)
        ensures
            r == self.entries().len(),
            self@.dom().finite(),
            r == self@.dom().len(),
    {
        proof {
            use_type_invariant(self);
            lemma_put_all_len::<K, V>(Map::empty(), self.entries@, 0);
        }
        self.entries.len()
    }

    /// Where the entry with the key of `key` stands, if there is one.
    fn position(&self, key: &K) -> (r: Option<usize>)
        ensures
            match r {
                Some(i) => i < self.entries@.len() && self.entries@[i as int].0.model()
                    == key.model(),
                None => !has_key_from(self.entries@, 0, key.model()),
            },
    {
        let mut i: usize = 0;
        while i < self.entries.len()
            invariant
                i <= self.entries@.len(),
                forall|j: int| 0 <= j < i ==> (#[trigger] self.entries@[j]).0.model() != key.model(),
            decreases self.entries@.len() - i,
        {
            if self.entries[i].0.same(key) {
                return Some(i);
            }
            i = i + 1;
        }
        None
    }

    /// A copy of the value stored under `key`, if there is one.
    pub fn get(&self, key: &K) -> (r: Option<V>)
        ensures
            match r {
                Some(v) => self@.contains_key(key.model()) && v.model() == self@[key.model()],
                None => !self@.contains_key(key.model()),
            },
    {
        proof {
            use_type_invariant(self);
            lemma_put_all::<K, V>(Map::empty(), self.entries@, 0, key.model());
        }
        match self.position(key) {
            Some(i) => Some(self.entries[i].1.duplicate()),
            None => None,
        }
    }

    /// Stores `value` under `key`, in place of what was stored there.
    pub fn insert(&mut self, key: K, value: V)
        ensures
            final(self)@ == old(self)@.insert(key.model(), value.model()),
    {
        proof {
            use_type_invariant(&*self);
        }
        let found = self.position(&key);
        let mut entries: Vec<(K, V)> = Vec::new();
        core::mem::swap(&mut self.entries, &mut entries);
        match found {
            Some(i) => {
                proof {
                    lemma_map_of_update(entries@, i as int, (key, value));
                }
                entries.set(i, (key, value));
            },
            None => {
                proof {
                    lemma_map_of_push(entries@, (key, value));
                }
                entries.push((key, value));
            },
        }
        self.entries = entries;
    }

    /// Takes `key` and its value out. Says whether the key was there.
    pub fn remove(&mut self, key: &K) -> (r: bool)
        ensures
            final(self)@ == old(self)@.remove(key.model()),
            r == old(self)@.contains_key(key.model()),
    {
        proof {
            use_type_invariant(&*self);
            lemma_put_all::<K, V>(Map::empty(), self.entries@, 0, key.model());
        }
        match self.position(key) {
            Some(i) => {
                let mut entries: Vec<(K, V)> = Vec::new();
                core::mem::swap(&mut self.entries, &mut entries);
                proof {
                    lemma_map_of_remove(entries@, i as int);
                }
                entries.remove(i);
                self.entries = entries;
                true
            },
            None => {
                assert(self@.remove(key.model()) =~= self@);
                false
            },
        }
    }

    /// Copies of all keys, each once, in no particular order.
    pub fn keys(&self) -> (r: Vec<K>)
        ensures
            lists_keys(r@, self@),
            r@.len() == self.entries().len(),
            self@.dom().finite(),
            r@.len() == self@.dom().len(),
    {
        proof {
            use_type_invariant(self);
            lemma_put_all_len::<K, V>(Map::empty(), self.entries@, 0);
        }
        let mut out: Vec<K> = Vec::new();
        let mut i: usize = 0;
        while i < self.entries.len()
            invariant
                i <= self.entries@.len(),
                out@.len() == i,
                forall|j: int|
                    0 <= j < i ==> (#[trigger] out@[j]).model() == self.entries@[j].0.model(),
            decreases self.entries@.len() - i,
        {
            out.push(self.entries[i].0.duplicate());
            i = i + 1;
        }
        proof {
            assert forall|j: int| 0 <= j < out@.len() implies self@.contains_key(
                (#[trigger] out@[j]).model(),
            ) by {
                lemma_put_all::<K, V>(Map::empty(), self.entries@, 0, out@[j].model());
                assert(0 <= j < self.entries@.len() && self.entries@[j].0.model()
                    == out@[j].model());
            }
            assert forall|a: int, b: int| 0 <= a < b < out@.len() implies (#[trigger] out@[a]).model()
                != (#[trigger] out@[b]).model() by {
                assert(self.entries@[a].0.model() != self.entries@[b].0.model());
            }
            assert forall|k: K::Model| self@.contains_key(k) implies exists|j: int|
                0 <= j < out@.len() && (#[trigger] out@[j]).model() == k by {
                lemma_put_all::<K, V>(Map::empty(), self.entries@, 0, k);
                let j = choose|j: int|
                    0 <= j < self.entries@.len() && (#[trigger] self.entries@[j]).0.model() == k;
                assert(0 <= j < out@.len() && out@[j].model() == k);
            }
        }
        out
    }

    /// Lays the table out as a snapshot, if the number of its entries and
    /// each key and value can be laid out.
    ///
    /// What comes back as `Ok` is the snapshot of the entries, and reads back
    /// as the mapping that the table stands for.
    pub fn encode(&self) -> (r: Result<Vec<u8>, EncodeFailed>)
        ensures
            r is Ok <==> all_accepted(self.entries()),
            r matches Ok(bytes) ==> all_fit(self.entries()) && bytes@ == snapshot_bytes(
                self.entries(),
            ) && bytes@.len() > 0 && parse_snapshot::<K, V>(bytes@) == Some(self@),
    {
        let mut out: Vec<u8> = Vec::new();
        let count: u64 = self.entries.len() as u64;
        if count.encode(&mut out).is_err() {
            return Err(EncodeFailed);
        }
        let ghost es = self.entries@;
        let ghost base = out@;
        let mut i: usize = 0;
        while i < self.entries.len()
            invariant
                i <= self.entries@.len(),
                es == self.entries@,
                out@ + entries_bytes(es, i as int) == base + entries_bytes(es, 0),
                serialized_u64(es.len() as u64) is Some,
                forall|j: int| 0 <= j < i ==> (#[trigger] es[j]).0.fits() && es[j].1.fits(),
                forall|j: int|
                    0 <= j < i ==> (#[trigger] es[j]).0.accepted() && es[j].1.accepted(),
            decreases self.entries@.len() - i,
        {
            let ghost before = out@;
            if self.entries[i].0.encode(&mut out).is_err() {
                return Err(EncodeFailed);
            }
            if self.entries[i].1.encode(&mut out).is_err() {
                return Err(EncodeFailed);
            }
            proof {
                let key = es[i as int].0.encoding();
                let val = es[i as int].1.encoding();
                let tail = entries_bytes(es, i + 1);
                assert(out@ + tail =~= before + (key + val + tail));
            }
            i = i + 1;
        }
        proof {
            assert(out@ =~= snapshot_bytes(es));
            lemma_snapshot_round_trip(es, Seq::empty());
            assert(snapshot_bytes(es) + Seq::<u8>::empty() =~= snapshot_bytes(es));
            vstd::bytes::lemma_auto_spec_u64_to_from_le_bytes();
        }
        Ok(out)
    }

    /// Reads a snapshot back into a table.
    ///
    /// Succeeds exactly on the bytes that are a snapshot; no bytes at all
    /// give the empty table.
    pub fn decode(bytes: &[u8]) -> (r: Result<Self, DecodeFailed>)
        ensures
            match r {
                Ok(t) => parse_snapshot::<K, V>(bytes@) == Some(t@),
                Err(_) => parse_snapshot::<K, V>(bytes@) is None,
            },
    {
        let mut table: Table<K, V> = Table::new();
        if bytes.len() == 0 {
            return Ok(table);
        }
        assert(bytes@.skip(0) =~= bytes@);
        let (count, first) = match u64::decode(bytes, 0) {
            Some(found) => found,
            None => {
                return Err(DecodeFailed);
            },
        };
        let mut pos: usize = first;
        let mut left: u64 = count;
        while left > 0
            invariant
                first == 8,
                first <= pos <= bytes@.len(),
                parse_entries::<K, V>(bytes@.skip(8), count as nat, Map::empty()) == shifted(
                    parse_entries::<K, V>(bytes@.skip(pos as int), left as nat, table@),
                    (pos - first) as nat,
                ),
                parse_snapshot::<K, V>(bytes@) == match parse_entries::<K, V>(
                    bytes@.skip(8),
                    count as nat,
                    Map::empty(),
                ) {
                    Some((m, _)) => Some(m),
                    None => None,
                },
            decreases left,
        {
            let ghost here = bytes@.skip(pos as int);
            let (k, mid) = match K::decode(bytes, pos) {
                Some(found) => found,
                None => {
                    return Err(DecodeFailed);
                },
            };
            assert(bytes@.skip(mid as int) =~= here.skip(mid - pos));
            let (v, end) = match V::decode(bytes, mid) {
                Some(found) => found,
                None => {
                    return Err(DecodeFailed);
                },
            };
            assert(bytes@.skip(end as int) =~= here.skip(end - pos));
            table.insert(k, v);
            pos = end;
            left = left - 1;
        }
        Ok(table)
    }
}

} // verus!
