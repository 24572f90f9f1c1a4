//! The layout of a snapshot: the whole table as one run of bytes.
//!
//! A snapshot is the number of entries, then each key followed by its value.
//! A file that holds no bytes at all stands for the empty table.

use crate::codec::{lemma_u64_round_trip, shifted, Codec};
use crate::table::{map_of, put_all};
use crate::wire::{parse_u64, serialized_u64, u64_bytes};
use vstd::prelude::*;

verus! {

/// Whether the entries can be laid out: their number and each of them fit.
pub open spec fn all_fit<K: Codec, V: Codec>(es: Seq<(K, V)>) -> bool {
    es.len() <= u64::MAX && forall|i: int|
        0 <= i < es.len() ==> (#[trigger] es[i]).0.fits() && es[i].1.fits()
}

/// Whether the entries can be laid out as a snapshot: whether their number
/// can, and each key and each value.
pub open spec fn all_accepted<K: Codec, V: Codec>(es: Seq<(K, V)>) -> bool {
    serialized_u64(es.len() as u64) is Some && forall|i: int|
        0 <= i < es.len() ==> (#[trigger] es[i]).0.accepted() && es[i].1.accepted()
}

/// The bytes of the entries of `es` from index `from` on: each key, then its
/// value.
pub open spec fn entries_bytes<K: Codec, V: Codec>(es: Seq<(K, V)>, from: int) -> Seq<u8>
    decreases es.len() - from,
{
    if 0 <= from < es.len() {
        es[from].0.encoding() + es[from].1.encoding() + entries_bytes(es, from + 1)
    } else {
        Seq::empty()
    }
}

/// The snapshot of a sequence of entries.
pub open spec fn snapshot_bytes<K: Codec, V: Codec>(es: Seq<(K, V)>) -> Seq<u8> {
    u64_bytes(es.len() as u64) + entries_bytes(es, 0)
}

/// Reads `count` entries from the front of `bytes` and puts them into `acc`
/// one after the other. Gives the mapping and the number of bytes used.
pub open spec fn parse_entries<K: Codec, V: Codec>(
    bytes: Seq<u8>,
    count: nat,
    acc: Map<K::Model, V::Model>,
) -> Option<(Map<K::Model, V::Model>, nat)>
    decreases count,
{
    if count == 0 {
        Some((acc, 0nat))
    } else {
        match K::parse(bytes) {
            Some((k, a)) => match V::parse(bytes.skip(a as int)) {
                Some((v, b)) => shifted(
                    parse_entries::<K, V>(
                        bytes.skip((a + b) as int),
                        (count - 1) as nat,
                        acc.insert(k, v),
                    ),
                    a + b,
                ),
                None => None,
            },
            None => None,
        }
    }
}

/// The mapping that a snapshot stands for, or `None` where the bytes are no
/// snapshot. No bytes at all stand for the empty mapping. Bytes that follow a
/// complete snapshot are ignored.
pub open spec fn parse_snapshot<K: Codec, V: Codec>(bytes: Seq<u8>) -> Option<
    Map<K::Model, V::Model>,
> {
    if bytes.len() == 0 {
        Some(Map::empty())
    } else {
        match parse_u64(bytes) {
            Some(count) => match parse_entries::<K, V>(bytes.skip(8), count as nat, Map::empty()) {
                Some((m, _)) => Some(m),
                None => None,
            },
            None => None,
        }
    }
}

/// The entries from `from` on are read back from their own bytes.
pub proof fn lemma_entries_round_trip<K: Codec, V: Codec>(
    es: Seq<(K, V)>,
    from: int,
    acc: Map<K::Model, V::Model>,
    rest: Seq<u8>,
)
    requires
        0 <= from <= es.len(),
        all_fit(es),
    ensures
        parse_entries::<K, V>(entries_bytes(es, from) + rest, (es.len() - from) as nat, acc)
            == Some((put_all(acc, es, from), entries_bytes(es, from).len())),
    decreases es.len() - from,
{
    if from < es.len() {
        let key = es[from].0.encoding();
        let val = es[from].1.encoding();
        let tail = entries_bytes(es, from + 1);
        let all = entries_bytes(es, from) + rest;
        assert(all =~= key + (val + (tail + rest)));
        es[from].0.parse_encoding(val + (tail + rest));
        assert(all.skip(key.len() as int) =~= val + (tail + rest));
        es[from].1.parse_encoding(tail + rest);
        assert(all.skip((key.len() + val.len()) as int) =~= tail + rest);
        lemma_entries_round_trip(
            es,
            from + 1,
            acc.insert(es[from].0.model(), es[from].1.model()),
            rest,
        );
    }
}

/// Reading a snapshot back gives the mapping that was written, whatever
/// bytes follow it.
pub proof fn lemma_snapshot_round_trip<K: Codec, V: Codec>(es: Seq<(K, V)>, rest: Seq<u8>)
    requires
        all_fit(es),
    ensures
        parse_snapshot::<K, V>(snapshot_bytes(es) + rest) == Some(map_of(es)),
{
    let count = u64_bytes(es.len() as u64);
    let items = entries_bytes(es, 0);
    let all = snapshot_bytes(es) + rest;
    assert(all =~= count + (items + rest));
    lemma_u64_round_trip(es.len() as u64, items + rest);
    assert(all.skip(8) =~= items + rest);
    lemma_entries_round_trip(es, 0, Map::empty(), rest);
}

} // verus!
