//! A value of one of two storable types, for keys and values that come in
//! two kinds.

use crate::codec::{lemma_u32_round_trip, Codec, EncodeFailed, Key};
use crate::wire::{parse_u32, serialized_u32, u32_bytes};
use vstd::prelude::*;

verus! {

/// A value of the first or of the second type.
///
/// Its bytes are a tag, 0 for the first and 1 for the second, and then the
/// bytes of what it holds.
#[derive(Debug, PartialEq, Eq)]
pub enum Either<A, B> {
    First(A),
    Second(B),
}

impl<A: Codec, B: Codec> Codec for Either<A, B> {
    type Model = Either<A::Model, B::Model>;

    open spec fn model(&self) -> Either<A::Model, B::Model> {
        match self {
            Either::First(a) => Either::First(a.model()),
            Either::Second(b) => Either::Second(b.model()),
        }
    }

    open spec fn fits(&self) -> bool {
        match self {
            Either::First(a) => a.fits(),
            Either::Second(b) => b.fits(),
        }
    }

    open spec fn accepted(&self) -> bool {
        match self {
            Either::First(a) => serialized_u32(0) is Some && a.accepted(),
            Either::Second(b) => serialized_u32(1) is Some && b.accepted(),
        }
    }

    open spec fn encoding(&self) -> Seq<u8> {
        match self {
            Either::First(a) => u32_bytes(0) + a.encoding(),
            Either::Second(b) => u32_bytes(1) + b.encoding(),
        }
    }

    open spec fn parse(bytes: Seq<u8>) -> Option<(Either<A::Model, B::Model>, nat)> {
        match parse_u32(bytes) {
            Some(tag) => if tag == 0 {
                match A::parse(bytes.skip(4)) {
                    Some((a, n)) => Some((Either::First(a), 4 + n)),
                    None => None,
                }
            } else if tag == 1 {
                match B::parse(bytes.skip(4)) {
                    Some((b, n)) => Some((Either::Second(b), 4 + n)),
                    None => None,
                }
            } else {
                None
            },
            None => None,
        }
    }

    proof fn parse_encoding(&self, rest: Seq<u8>) {
        let all = self.encoding() + rest;
        match self {
            Either::First(a) => {
                lemma_u32_round_trip(0, a.encoding() + rest);
                assert(all =~= u32_bytes(0) + (a.encoding() + rest));
                assert(all.skip(4) =~= a.encoding() + rest);
                a.parse_encoding(rest);
            },
            Either::Second(b) => {
                lemma_u32_round_trip(1, b.encoding() + rest);
                assert(all =~= u32_bytes(1) + (b.encoding() + rest));
                assert(all.skip(4) =~= b.encoding() + rest);
                b.parse_encoding(rest);
            },
        }
    }

    proof fn parse_within(bytes: Seq<u8>) {
        if parse_u32(bytes) is Some {
            A::parse_within(bytes.skip(4));
            B::parse_within(bytes.skip(4));
        }
    }

    fn encode(&self, out: &mut Vec<u8>) -> (r: Result<(), EncodeFailed>) {
        let start = out.len();
        match self {
            Either::First(a) => {
                if 0u32.encode(out).is_err() {
                    return Err(EncodeFailed);
                }
                if a.encode(out).is_err() {
                    out.truncate(start);
                    assert(out@ =~= old(out)@);
                    return Err(EncodeFailed);
                }
                assert(out@ =~= old(out)@ + self.encoding());
                Ok(())
            },
            Either::Second(b) => {
                if 1u32.encode(out).is_err() {
                    return Err(EncodeFailed);
                }
                if b.encode(out).is_err() {
                    out.truncate(start);
                    assert(out@ =~= old(out)@);
                    return Err(EncodeFailed);
                }
                assert(out@ =~= old(out)@ + self.encoding());
                Ok(())
            },
        }
    }

    fn decode(bytes: &[u8], at: usize) -> (r: Option<(Self, usize)>) {
        if at > bytes.len() {
            return None;
        }
        let ghost all = bytes@.skip(at as int);
        let (tag, body) = match u32::decode(bytes, at) {
            Some(found) => found,
            None => {
                return None;
            },
        };
        assert(bytes@.skip(body as int) =~= all.skip(4));
        if tag == 0 {
            match A::decode(bytes, body) {
                Some((a, end)) => Some((Either::First(a), end)),
                None => None,
            }
        } else if tag == 1 {
            match B::decode(bytes, body) {
                Some((b, end)) => Some((Either::Second(b), end)),
                None => None,
            }
        } else {
            None
        }
    }

    fn duplicate(&self) -> (r: Self) {
        match self {
            Either::First(a) => Either::First(a.duplicate()),
            Either::Second(b) => Either::Second(b.duplicate()),
        }
    }
}

impl<A: Key, B: Key> Key for Either<A, B> {
    fn same(&self, other: &Self) -> (r: bool) {
        match (self, other) {
            (Either::First(a), Either::First(b)) => a.same(b),
            (Either::Second(a), Either::Second(b)) => a.same(b),
            _ => false,
        }
    }
}

} // verus!
