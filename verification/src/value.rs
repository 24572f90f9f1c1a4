//! The default value type: text, numbers, and nested lists and maps of
//! values.

use crate::codec::{
    lemma_i32_round_trip, lemma_text_round_trip, lemma_u32_round_trip, lemma_u64_round_trip,
    shifted, Codec, EncodeFailed,
};
use crate::wire::{
    i32_bytes, parse_i32, parse_text, parse_u32, parse_u64, serialized_i32, serialized_text,
    serialized_u32, serialized_u64, text_bytes, u32_bytes, u64_bytes,
};
use vstd::prelude::*;
use vstd::utf8::*;

verus! {

/// A value of the default value type.
#[derive(Debug, PartialEq)]
pub enum Value {
    /// A piece of text.
    String(String),
    /// A whole number.
    Int(i32),
    /// A single-precision floating-point number, held as its bit pattern.
    Float(u32),
    /// Named values, in the order in which they are laid out.
    Dict(Vec<(String, Value)>),
    /// A list of values.
    List(Vec<Value>),
}

/// The mathematical value that a `Value` stands for.
pub enum ValueModel {
    String(Seq<char>),
    Int(i32),
    Float(u32),
    Dict(Seq<(Seq<char>, ValueModel)>),
    List(Seq<ValueModel>),
}

impl Value {
    pub open spec fn model(&self) -> ValueModel
        decreases self,
    {
        match self {
            Value::String(s) => ValueModel::String(s@),
            Value::Int(x) => ValueModel::Int(*x),
            Value::Float(b) => ValueModel::Float(*b),
            Value::Dict(es) => ValueModel::Dict(dict_model(es@)),
            Value::List(vs) => ValueModel::List(list_model(vs@)),
        }
    }
}

impl Value {
    /// Appends the bytes of this value to `out`, if it can be laid out, and
    /// leaves `out` as it is if not.
    #[verifier::loop_isolation(false)]
    pub fn write_to(&self, out: &mut Vec<u8>) -> (r: Result<(), EncodeFailed>)
        ensures
            r is Ok <==> value_accepted(self.model()),
            r is Ok ==> value_fits(self.model()) && final(out)@ == old(out)@ + value_bytes(
                self.model(),
            ),
            r is Err ==> final(out)@ == old(out)@,
        decreases self,
    {
        let start = out.len();
        match self {
            Value::String(s) => {
                if 0u32.encode(out).is_err() {
                    return Err(EncodeFailed);
                }
                if s.encode(out).is_err() {
                    out.truncate(start);
                    assert(out@ =~= old(out)@);
                    return Err(EncodeFailed);
                }
                assert(out@ =~= old(out)@ + value_bytes(self.model()));
                Ok(())
            },
            Value::Int(x) => {
                if 1u32.encode(out).is_err() {
                    return Err(EncodeFailed);
                }
                if x.encode(out).is_err() {
                    out.truncate(start);
                    assert(out@ =~= old(out)@);
                    return Err(EncodeFailed);
                }
                assert(out@ =~= old(out)@ + value_bytes(self.model()));
                Ok(())
            },
            Value::Float(b) => {
                if 2u32.encode(out).is_err() {
                    return Err(EncodeFailed);
                }
                if b.encode(out).is_err() {
                    out.truncate(start);
                    assert(out@ =~= old(out)@);
                    return Err(EncodeFailed);
                }
                assert(out@ =~= old(out)@ + value_bytes(self.model()));
                Ok(())
            },
            Value::Dict(es) => {
                if 3u32.encode(out).is_err() {
                    return Err(EncodeFailed);
                }
                let count: u64 = es.len() as u64;
                if count.encode(out).is_err() {
                    out.truncate(start);
                    assert(out@ =~= old(out)@);
                    return Err(EncodeFailed);
                }
                let ghost ms = dict_model(es@);
                let ghost base = out@;
                let mut i: usize = 0;
                while i < es.len()
                    invariant
                        i <= es.len(),
                        ms == dict_model(es@),
                        out@.len() >= start,
                        out@.subrange(0, start as int) == old(out)@,
                        out@ + dict_bytes(ms, i as int) == base + dict_bytes(ms, 0),
                        forall|j: int|
                            0 <= j < i ==> encode_utf8((#[trigger] ms[j]).0).len() <= u64::MAX
                                && value_fits(ms[j].1),
                        forall|j: int|
                            0 <= j < i ==> serialized_text((#[trigger] ms[j]).0) is Some
                                && value_accepted(ms[j].1),
                        forall|j: int| 0 <= j < es.len() ==> decreases_to!(self => es[j].1),
                    decreases es.len() - i,
                {
                    let ghost before = out@;
                    if es[i].0.encode(out).is_err() {
                        out.truncate(start);
                        assert(out@ =~= old(out)@);
                        return Err(EncodeFailed);
                    }
                    if es[i].1.write_to(out).is_err() {
                        out.truncate(start);
                        assert(out@ =~= old(out)@);
                        return Err(EncodeFailed);
                    }
                    proof {
                        let name = text_bytes(ms[i as int].0);
                        let head = value_bytes(ms[i as int].1);
                        let tail = dict_bytes(ms, i + 1);
                        assert(out@ + tail =~= before + (name + head + tail));
                        assert(out@.subrange(0, start as int) =~= before.subrange(0, start as int));
                    }
                    i = i + 1;
                }
                assert(out@ =~= old(out)@ + value_bytes(self.model()));
                Ok(())
            },
            Value::List(vs) => {
                if 4u32.encode(out).is_err() {
                    return Err(EncodeFailed);
                }
                let count: u64 = vs.len() as u64;
                if count.encode(out).is_err() {
                    out.truncate(start);
                    assert(out@ =~= old(out)@);
                    return Err(EncodeFailed);
                }
                let ghost ms = list_model(vs@);
                let ghost base = out@;
                let mut i: usize = 0;
                while i < vs.len()
                    invariant
                        i <= vs.len(),
                        ms == list_model(vs@),
                        out@.len() >= start,
                        out@.subrange(0, start as int) == old(out)@,
                        out@ + list_bytes(ms, i as int) == base + list_bytes(ms, 0),
                        forall|j: int| 0 <= j < i ==> value_fits(#[trigger] ms[j]),
                        forall|j: int| 0 <= j < i ==> value_accepted(#[trigger] ms[j]),
                        forall|j: int| 0 <= j < vs.len() ==> decreases_to!(self => vs[j]),
                    decreases vs.len() - i,
                {
                    let ghost before = out@;
                    if vs[i].write_to(out).is_err() {
                        out.truncate(start);
                        assert(out@ =~= old(out)@);
                        return Err(EncodeFailed);
                    }
                    proof {
                        let head = value_bytes(ms[i as int]);
                        let tail = list_bytes(ms, i + 1);
                        assert(out@ + tail =~= before + (head + tail));
                        assert(out@.subrange(0, start as int) =~= before.subrange(0, start as int));
                    }
                    i = i + 1;
                }
                assert(out@ =~= old(out)@ + value_bytes(self.model()));
                Ok(())
            },
        }
    }
}

impl Value {
    /// Reads the value that starts at `at`, and says where it ends. There
    /// is no value beyond the end of the bytes.
    #[verifier::loop_isolation(false)]
    pub fn read_from(bytes: &[u8], at: usize) -> (r: Option<(Value, usize)>)
        ensures
            match r {
                Some((v, end)) => at <= end <= bytes@.len() && parse_value(bytes@.skip(at as int))
                    == Some((v.model(), (end - at) as nat)),
                None => at > bytes@.len() || parse_value(bytes@.skip(at as int)) is None,
            },
        decreases bytes@.len() - at,
    {
        if at > bytes.len() {
            return None;
        }
        let ghost all = bytes@.skip(at as int);
        let (tag, body) = match u32::decode(bytes, at) {
            Some(found) => found,
            None => {
                return None;
            },
        };
        assert(bytes@.skip(body as int) =~= all.skip(4));
        if tag == 0 {
            match String::decode(bytes, body) {
                Some((s, end)) => Some((Value::String(s), end)),
                None => None,
            }
        } else if tag == 1 {
            match i32::decode(bytes, body) {
                Some((x, end)) => Some((Value::Int(x), end)),
                None => None,
            }
        } else if tag == 2 {
            match u32::decode(bytes, body) {
                Some((b, end)) => Some((Value::Float(b), end)),
                None => None,
            }
        } else if tag == 3 {
            let (count, first) = match u64::decode(bytes, body) {
                Some(found) => found,
                None => {
                    return None;
                },
            };
            assert(bytes@.skip(first as int) =~= all.skip(4).skip(8));
            let mut entries: Vec<(String, Value)> = Vec::new();
            let mut pos: usize = first;
            let mut left: u64 = count;
            assert(dict_model(entries@) =~= Seq::empty());
            while left > 0
                invariant
                    at < first <= pos <= bytes@.len(),
                    parse_dict(bytes@.skip(first as int), count as nat, Seq::empty()) == shifted(
                        parse_dict(bytes@.skip(pos as int), left as nat, dict_model(entries@)),
                        (pos - first) as nat,
                    ),
                decreases left,
            {
                let ghost here = bytes@.skip(pos as int);
                let ghost acc = dict_model(entries@);
                let (name, mid) = match String::decode(bytes, pos) {
                    Some(found) => found,
                    None => {
                        return None;
                    },
                };
                assert(bytes@.skip(mid as int) =~= here.skip(mid - pos));
                let (v, end) = match Value::read_from(bytes, mid) {
                    Some(found) => found,
                    None => {
                        return None;
                    },
                };
                assert(bytes@.skip(end as int) =~= here.skip(end - pos));
                let ghost entry = (name@, v.model());
                entries.push((name, v));
                assert(dict_model(entries@) =~= acc.push(entry));
                pos = end;
                left = left - 1;
            }
            Some((Value::Dict(entries), pos))
        } else if tag == 4 {
            let (count, first) = match u64::decode(bytes, body) {
                Some(found) => found,
                None => {
                    return None;
                },
            };
            assert(bytes@.skip(first as int) =~= all.skip(4).skip(8));
            let mut items: Vec<Value> = Vec::new();
            let mut pos: usize = first;
            let mut left: u64 = count;
            assert(list_model(items@) =~= Seq::empty());
            while left > 0
                invariant
                    at < first <= pos <= bytes@.len(),
                    parse_list(bytes@.skip(first as int), count as nat, Seq::empty()) == shifted(
                        parse_list(bytes@.skip(pos as int), left as nat, list_model(items@)),
                        (pos - first) as nat,
                    ),
                decreases left,
            {
                let ghost here = bytes@.skip(pos as int);
                let ghost acc = list_model(items@);
                let (v, end) = match Value::read_from(bytes, pos) {
                    Some(found) => found,
                    None => {
                        return None;
                    },
                };
                assert(bytes@.skip(end as int) =~= here.skip(end - pos));
                let ghost m = v.model();
                items.push(v);
                assert(list_model(items@) =~= acc.push(m));
                pos = end;
                left = left - 1;
            }
            Some((Value::List(items), pos))
        } else {
            None
        }
    }

    /// A copy that stands for the same value.
    pub fn copy(&self) -> (r: Value)
        ensures
            r.model() == self.model(),
        decreases self,
    {
        match self {
            Value::String(s) => Value::String(s.clone()),
            Value::Int(x) => Value::Int(*x),
            Value::Float(b) => Value::Float(*b),
            Value::Dict(es) => {
                let mut entries: Vec<(String, Value)> = Vec::new();
                let mut i: usize = 0;
                while i < es.len()
                    invariant
                        i <= es.len(),
                        entries@.len() == i,
                        forall|j: int|
                            0 <= j < i ==> (#[trigger] entries@[j]).0@ == es@[j].0@
                                && entries@[j].1.model() == es@[j].1.model(),
                        forall|j: int| 0 <= j < es.len() ==> decreases_to!(self => es[j].1),
                    decreases es.len() - i,
                {
                    entries.push((es[i].0.clone(), es[i].1.copy()));
                    i = i + 1;
                }
                assert(dict_model(entries@) =~= dict_model(es@));
                Value::Dict(entries)
            },
            Value::List(vs) => {
                let mut items: Vec<Value> = Vec::new();
                let mut i: usize = 0;
                while i < vs.len()
                    invariant
                        i <= vs.len(),
                        items@.len() == i,
                        forall|j: int|
                            0 <= j < i ==> (#[trigger] items@[j]).model() == vs@[j].model(),
                        forall|j: int| 0 <= j < vs.len() ==> decreases_to!(self => vs[j]),
                    decreases vs.len() - i,
                {
                    items.push(vs[i].copy());
                    i = i + 1;
                }
                assert(list_model(items@) =~= list_model(vs@));
                Value::List(items)
            },
        }
    }
}

impl Codec for Value {
    type Model = ValueModel;

    open spec fn model(&self) -> ValueModel {
        Value::model(self)
    }

    open spec fn fits(&self) -> bool {
        value_fits(Value::model(self))
    }

    open spec fn accepted(&self) -> bool {
        value_accepted(Value::model(self))
    }

    open spec fn encoding(&self) -> Seq<u8> {
        value_bytes(Value::model(self))
    }

    open spec fn parse(bytes: Seq<u8>) -> Option<(ValueModel, nat)> {
        parse_value(bytes)
    }

    proof fn parse_encoding(&self, rest: Seq<u8>) {
        lemma_value_round_trip(Value::model(self), rest);
    }

    proof fn parse_within(bytes: Seq<u8>) {
        lemma_value_within(bytes);
    }

    fn encode(&self, out: &mut Vec<u8>) -> (r: Result<(), EncodeFailed>) {
        self.write_to(out)
    }

    fn decode(bytes: &[u8], at: usize) -> (r: Option<(Self, usize)>) {
        Value::read_from(bytes, at)
    }

    fn duplicate(&self) -> (r: Self) {
        self.copy()
    }
}

impl Clone for Value {
    fn clone(&self) -> (r: Self)
        ensures
            r.model() == self.model(),
    {
        self.copy()
    }
}

/// The models of the values of a list, in order.
pub open spec fn list_model(vs: Seq<Value>) -> Seq<ValueModel>
    decreases vs,
{
    Seq::new(
        vs.len(),
        |i: int|
            if 0 <= i < vs.len() {
                vs[i].model()
            } else {
                ValueModel::Int(0)
            },
    )
}

/// The models of the entries of a map, in order.
pub open spec fn dict_model(es: Seq<(String, Value)>) -> Seq<(Seq<char>, ValueModel)>
    decreases es,
{
    Seq::new(
        es.len(),
        |i: int|
            if 0 <= i < es.len() {
                (es[i].0@, es[i].1.model())
            } else {
                (Seq::empty(), ValueModel::Int(0))
            },
    )
}

/// The tag that opens the bytes of a value and tells its variant.
pub open spec fn tag_of(m: ValueModel) -> u32 {
    match m {
        ValueModel::String(_) => 0,
        ValueModel::Int(_) => 1,
        ValueModel::Float(_) => 2,
        ValueModel::Dict(_) => 3,
        ValueModel::List(_) => 4,
    }
}

/// Whether every length inside the value can be written as a `u64`.
pub open spec fn value_fits(m: ValueModel) -> bool
    decreases m,
{
    match m {
        ValueModel::String(s) => encode_utf8(s).len() <= u64::MAX,
        ValueModel::Int(_) => true,
        ValueModel::Float(_) => true,
        ValueModel::Dict(es) => es.len() <= u64::MAX && forall|i: int|
            0 <= i < es.len() ==> encode_utf8((#[trigger] es[i]).0).len() <= u64::MAX
                && value_fits(es[i].1),
        ValueModel::List(vs) => vs.len() <= u64::MAX && forall|i: int|
            0 <= i < vs.len() ==> value_fits(#[trigger] vs[i]),
    }
}

/// Whether a value can be laid out: whether its tag can, and what it holds,
/// down to the last number and string inside it.
pub open spec fn value_accepted(m: ValueModel) -> bool
    decreases m,
{
    serialized_u32(tag_of(m)) is Some && match m {
        ValueModel::String(s) => serialized_text(s) is Some,
        ValueModel::Int(x) => serialized_i32(x) is Some,
        ValueModel::Float(b) => serialized_u32(b) is Some,
        ValueModel::Dict(es) => serialized_u64(es.len() as u64) is Some && forall|i: int|
            0 <= i < es.len() ==> serialized_text((#[trigger] es[i]).0) is Some && value_accepted(
                es[i].1,
            ),
        ValueModel::List(vs) => serialized_u64(vs.len() as u64) is Some && forall|i: int|
            0 <= i < vs.len() ==> value_accepted(#[trigger] vs[i]),
    }
}

/// The bytes of a value: the tag of its variant, then what the variant holds.
/// A list or a map holds the number of its entries and then the entries, one
/// after the other.
pub open spec fn value_bytes(m: ValueModel) -> Seq<u8>
    decreases m, 0nat,
{
    u32_bytes(tag_of(m)) + match m {
        ValueModel::String(s) => text_bytes(s),
        ValueModel::Int(x) => i32_bytes(x),
        ValueModel::Float(b) => u32_bytes(b),
        ValueModel::Dict(es) => u64_bytes(es.len() as u64) + dict_bytes(es, 0),
        ValueModel::List(vs) => u64_bytes(vs.len() as u64) + list_bytes(vs, 0),
    }
}

/// The bytes of the values of `vs` from index `from` on.
pub open spec fn list_bytes(vs: Seq<ValueModel>, from: int) -> Seq<u8>
    decreases vs, vs.len() - from,
{
    if 0 <= from < vs.len() {
        value_bytes(vs[from]) + list_bytes(vs, from + 1)
    } else {
        Seq::empty()
    }
}

/// The bytes of the entries of `es` from index `from` on: each name, then
/// its value.
pub open spec fn dict_bytes(es: Seq<(Seq<char>, ValueModel)>, from: int) -> Seq<u8>
    decreases es, es.len() - from,
{
    if 0 <= from < es.len() {
        text_bytes(es[from].0) + value_bytes(es[from].1) + dict_bytes(es, from + 1)
    } else {
        Seq::empty()
    }
}

/// The value at the front of `bytes` and the number of bytes it takes up.
pub open spec fn parse_value(bytes: Seq<u8>) -> Option<(ValueModel, nat)>
    decreases bytes.len(), 0nat,
{
    match parse_u32(bytes) {
        None => None,
        Some(tag) => {
            let body = bytes.skip(4);
            if tag == 0 {
                match parse_text(body) {
                    Some((s, n)) => Some((ValueModel::String(s), 4 + n)),
                    None => None,
                }
            } else if tag == 1 {
                match parse_i32(body) {
                    Some(x) => Some((ValueModel::Int(x), 8nat)),
                    None => None,
                }
            } else if tag == 2 {
                match parse_u32(body) {
                    Some(b) => Some((ValueModel::Float(b), 8nat)),
                    None => None,
                }
            } else if tag == 3 {
                match parse_u64(body) {
                    Some(count) => match parse_dict(body.skip(8), count as nat, Seq::empty()) {
                        Some((es, n)) => Some((ValueModel::Dict(es), 12 + n)),
                        None => None,
                    },
                    None => None,
                }
            } else if tag == 4 {
                match parse_u64(body) {
                    Some(count) => match parse_list(body.skip(8), count as nat, Seq::empty()) {
                        Some((vs, n)) => Some((ValueModel::List(vs), 12 + n)),
                        None => None,
                    },
                    None => None,
                }
            } else {
                None
            }
        },
    }
}

/// Reads `count` values from the front of `bytes` and appends them to `acc`.
pub open spec fn parse_list(bytes: Seq<u8>, count: nat, acc: Seq<ValueModel>) -> Option<
    (Seq<ValueModel>, nat),
>
    decreases bytes.len(), count + 1,
{
    if count == 0 {
        Some((acc, 0nat))
    } else {
        match parse_value(bytes) {
            Some((v, n)) => if n <= bytes.len() {
                match parse_list(bytes.skip(n as int), (count - 1) as nat, acc.push(v)) {
                    Some((vs, rest)) => Some((vs, n + rest)),
                    None => None,
                }
            } else {
                None
            },
            None => None,
        }
    }
}

/// Reads `count` named values from the front of `bytes` and appends them to
/// `acc`.
pub open spec fn parse_dict(
    bytes: Seq<u8>,
    count: nat,
    acc: Seq<(Seq<char>, ValueModel)>,
) -> Option<(Seq<(Seq<char>, ValueModel)>, nat)>
    decreases bytes.len(), count + 1,
{
    if count == 0 {
        Some((acc, 0nat))
    } else {
        match parse_text(bytes) {
            Some((name, k)) => match parse_value(bytes.skip(k as int)) {
                Some((v, n)) => if k + n <= bytes.len() {
                    match parse_dict(
                        bytes.skip((k + n) as int),
                        (count - 1) as nat,
                        acc.push((name, v)),
                    ) {
                        Some((es, rest)) => Some((es, k + n + rest)),
                        None => None,
                    }
                } else {
                    None
                },
                None => None,
            },
            None => None,
        }
    }
}

/// A value is read back from its own bytes, whatever follows them.
pub proof fn lemma_value_round_trip(m: ValueModel, rest: Seq<u8>)
    requires
        value_fits(m),
    ensures
        parse_value(value_bytes(m) + rest) == Some((m, value_bytes(m).len())),
    decreases m, 0nat,
{
    let all = value_bytes(m) + rest;
    let tag = u32_bytes(tag_of(m));
    match m {
        ValueModel::String(s) => {
            lemma_u32_round_trip(0, text_bytes(s) + rest);
            assert(all =~= tag + (text_bytes(s) + rest));
            assert(all.skip(4) =~= text_bytes(s) + rest);
            lemma_text_round_trip(s, rest);
        },
        ValueModel::Int(x) => {
            lemma_u32_round_trip(1, i32_bytes(x) + rest);
            assert(all =~= tag + (i32_bytes(x) + rest));
            assert(all.skip(4) =~= i32_bytes(x) + rest);
            lemma_i32_round_trip(x, rest);
        },
        ValueModel::Float(b) => {
            lemma_u32_round_trip(2, u32_bytes(b) + rest);
            assert(all =~= tag + (u32_bytes(b) + rest));
            assert(all.skip(4) =~= u32_bytes(b) + rest);
            lemma_u32_round_trip(b, rest);
        },
        ValueModel::Dict(es) => {
            let count = u64_bytes(es.len() as u64);
            let items = dict_bytes(es, 0);
            lemma_u32_round_trip(3, count + items + rest);
            assert(all =~= tag + (count + items + rest));
            assert(all.skip(4) =~= count + (items + rest));
            lemma_u64_round_trip(es.len() as u64, items + rest);
            assert(all.skip(4).skip(8) =~= items + rest);
            lemma_dict_round_trip(es, 0, Seq::empty(), rest);
            assert(Seq::<(Seq<char>, ValueModel)>::empty() + es.skip(0) =~= es);
        },
        ValueModel::List(vs) => {
            let count = u64_bytes(vs.len() as u64);
            let items = list_bytes(vs, 0);
            lemma_u32_round_trip(4, count + items + rest);
            assert(all =~= tag + (count + items + rest));
            assert(all.skip(4) =~= count + (items + rest));
            lemma_u64_round_trip(vs.len() as u64, items + rest);
            assert(all.skip(4).skip(8) =~= items + rest);
            lemma_list_round_trip(vs, 0, Seq::empty(), rest);
            assert(Seq::<ValueModel>::empty() + vs.skip(0) =~= vs);
        },
    }
}

/// The values of a list from `from` on are read back from their own bytes.
pub proof fn lemma_list_round_trip(
    vs: Seq<ValueModel>,
    from: int,
    acc: Seq<ValueModel>,
    rest: Seq<u8>,
)
    requires
        0 <= from <= vs.len(),
        forall|i: int| 0 <= i < vs.len() ==> value_fits(#[trigger] vs[i]),
    ensures
        parse_list(list_bytes(vs, from) + rest, (vs.len() - from) as nat, acc) == Some(
            (acc + vs.skip(from), list_bytes(vs, from).len()),
        ),
    decreases vs, vs.len() - from,
{
    if from == vs.len() {
        assert(acc + vs.skip(from) =~= acc);
    } else {
        let head = value_bytes(vs[from]);
        let tail = list_bytes(vs, from + 1);
        let all = list_bytes(vs, from) + rest;
        assert(all =~= head + (tail + rest));
        lemma_value_round_trip(vs[from], tail + rest);
        assert(all.skip(head.len() as int) =~= tail + rest);
        lemma_list_round_trip(vs, from + 1, acc.push(vs[from]), rest);
        assert(acc.push(vs[from]) + vs.skip(from + 1) =~= acc + vs.skip(from));
    }
}

/// The entries of a map from `from` on are read back from their own bytes.
pub proof fn lemma_dict_round_trip(
    es: Seq<(Seq<char>, ValueModel)>,
    from: int,
    acc: Seq<(Seq<char>, ValueModel)>,
    rest: Seq<u8>,
)
    requires
        0 <= from <= es.len(),
        forall|i: int|
            0 <= i < es.len() ==> encode_utf8((#[trigger] es[i]).0).len() <= u64::MAX
                && value_fits(es[i].1),
    ensures
        parse_dict(dict_bytes(es, from) + rest, (es.len() - from) as nat, acc) == Some(
            (acc + es.skip(from), dict_bytes(es, from).len()),
        ),
    decreases es, es.len() - from,
{
    if from == es.len() {
        assert(acc + es.skip(from) =~= acc);
    } else {
        let name = text_bytes(es[from].0);
        let head = value_bytes(es[from].1);
        let tail = dict_bytes(es, from + 1);
        let all = dict_bytes(es, from) + rest;
        assert(all =~= name + (head + (tail + rest)));
        lemma_text_round_trip(es[from].0, head + (tail + rest));
        assert(all.skip(name.len() as int) =~= head + (tail + rest));
        lemma_value_round_trip(es[from].1, tail + rest);
        assert(all.skip((name.len() + head.len()) as int) =~= tail + rest);
        lemma_dict_round_trip(es, from + 1, acc.push(es[from]), rest);
        assert(acc.push(es[from]) + es.skip(from + 1) =~= acc + es.skip(from));
    }
}

/// A value never reaches beyond the bytes it is read from.
pub proof fn lemma_value_within(bytes: Seq<u8>)
    ensures
        parse_value(bytes) matches Some((_, n)) ==> n <= bytes.len(),
    decreases bytes.len(), 0nat,
{
    match parse_u32(bytes) {
        None => {},
        Some(tag) => {
            let body = bytes.skip(4);
            if tag == 3 {
                if let Some(count) = parse_u64(body) {
                    lemma_dict_within(body.skip(8), count as nat, Seq::empty());
                }
            } else if tag == 4 {
                if let Some(count) = parse_u64(body) {
                    lemma_list_within(body.skip(8), count as nat, Seq::empty());
                }
            }
        },
    }
}

/// The values of a list never reach beyond the bytes they are read from.
pub proof fn lemma_list_within(bytes: Seq<u8>, count: nat, acc: Seq<ValueModel>)
    ensures
        parse_list(bytes, count, acc) matches Some((_, n)) ==> n <= bytes.len(),
    decreases bytes.len(), count + 1,
{
    if count > 0 {
        if let Some((v, n)) = parse_value(bytes) {
            if n <= bytes.len() {
                lemma_list_within(bytes.skip(n as int), (count - 1) as nat, acc.push(v));
            }
        }
    }
}

/// The entries of a map never reach beyond the bytes they are read from.
pub proof fn lemma_dict_within(bytes: Seq<u8>, count: nat, acc: Seq<(Seq<char>, ValueModel)>)
    ensures
        parse_dict(bytes, count, acc) matches Some((_, n)) ==> n <= bytes.len(),
    decreases bytes.len(), count + 1,
{
    if count > 0 {
        if let Some((name, k)) = parse_text(bytes) {
            if let Some((v, n)) = parse_value(bytes.skip(k as int)) {
                if k + n <= bytes.len() {
                    lemma_dict_within(
                        bytes.skip((k + n) as int),
                        (count - 1) as nat,
                        acc.push((name, v)),
                    );
                }
            }
        }
    }
}

} // verus!
