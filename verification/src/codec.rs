//! What a type must offer to be stored: a mathematical model, a byte layout,
//! and the two directions between them.

use crate::wire::{
    get_i32, get_text, get_u32, get_u64, i32_bytes, parse_i32, parse_text, parse_u32, parse_u64,
    serialize_i32, serialize_text, serialize_u32, serialize_u64, serialized_i32, serialized_text,
    serialized_u32, serialized_u64, text_bytes, u32_bytes, u64_bytes,
};
use vstd::bytes::*;
use vstd::prelude::*;
use vstd::slice::*;
use vstd::utf8::*;

verus! {

/// Raised when a value could not be written out.
#[derive(Debug, Clone, Copy, PartialEq, Eq, Structural)]
pub struct EncodeFailed;

/// A type whose values can be laid out as bytes and read back.
///
/// `encoding` says which bytes stand for a value and `parse` says which value
/// stands at the front of some bytes. `parse_encoding` ties the two together:
/// reading back what was written gives the same model, whatever follows it.
pub trait Codec: Sized {
    /// The mathematical value that an instance stands for.
    type Model;

    spec fn model(&self) -> Self::Model;

    /// Whether the value is small enough for the length fields of the
    /// layout. Every value that was written out fits.
    spec fn fits(&self) -> bool;

    /// Whether the value can be laid out. This depends on the value alone:
    /// a value that cannot be laid out once cannot be laid out later.
    spec fn accepted(&self) -> bool;

    /// The bytes that stand for this value.
    spec fn encoding(&self) -> Seq<u8>;

    /// The value at the front of `bytes`, with the number of bytes it takes
    /// up, or `None` when no value is laid out there.
    spec fn parse(bytes: Seq<u8>) -> Option<(Self::Model, nat)>;

    /// What was written is read back, and exactly as many bytes are used.
    proof fn parse_encoding(&self, rest: Seq<u8>)
        requires
            self.fits(),
        ensures
            Self::parse(self.encoding() + rest) == Some((self.model(), self.encoding().len())),
    ;

    /// A value never reaches beyond the bytes it is read from.
    proof fn parse_within(bytes: Seq<u8>)
        ensures
            Self::parse(bytes) matches Some((_, n)) ==> n <= bytes.len(),
    ;

    /// Appends the bytes of this value to `out`, if it can be laid out,
    /// and leaves `out` as it is if not.
    fn encode(&self, out: &mut Vec<u8>) -> (r: Result<(), EncodeFailed>)
        ensures
            r is Ok <==> self.accepted(),
            r is Ok ==> self.fits() && final(out)@ == old(out)@ + self.encoding(),
            r is Err ==> final(out)@ == old(out)@,
    ;

    /// Reads the value that starts at `at`, and says where it ends. There
    /// is no value beyond the end of the bytes.
    fn decode(bytes: &[u8], at: usize) -> (r: Option<(Self, usize)>)
        ensures
            match r {
                Some((v, end)) => at <= end <= bytes@.len() && Self::parse(bytes@.skip(at as int))
                    == Some((v.model(), (end - at) as nat)),
                None => at > bytes@.len() || Self::parse(bytes@.skip(at as int)) is None,
            },
    ;

    /// A copy that stands for the same value.
    fn duplicate(&self) -> (r: Self)
        ensures
            r.model() == self.model(),
    ;
}

/// Takes in what the serializer has returned: appends the bytes to `out` if
/// there are any, and fails, leaving `out` as it is, if there are none.
pub fn appended(out: &mut Vec<u8>, serialized: Result<Vec<u8>, bincode::Error>) -> (r: Result<
    (),
    EncodeFailed,
>)
    ensures
        match serialized {
            Ok(bytes) => r is Ok && final(out)@ == old(out)@ + bytes@,
            Err(_) => r is Err && final(out)@ == old(out)@,
        },
{
    match serialized {
        Ok(mut bytes) => {
            out.append(&mut bytes);
            Ok(())
        },
        Err(_) => Err(EncodeFailed),
    }
}

/// A storable type that can also serve as a key: two instances can be told
/// apart.
pub trait Key: Codec {
    fn same(&self, other: &Self) -> (r: bool)
        ensures
            r == (self.model() == other.model()),
    ;
}

impl Codec for i32 {
    type Model = i32;

    open spec fn model(&self) -> i32 {
        *self
    }

    open spec fn fits(&self) -> bool {
        true
    }

    open spec fn accepted(&self) -> bool {
        serialized_i32(*self) is Some
    }

    open spec fn encoding(&self) -> Seq<u8> {
        i32_bytes(*self)
    }

    open spec fn parse(bytes: Seq<u8>) -> Option<(i32, nat)> {
        match parse_i32(bytes) {
            Some(x) => Some((x, 4nat)),
            None => None,
        }
    }

    proof fn parse_encoding(&self, rest: Seq<u8>) {
        lemma_i32_round_trip(*self, rest);
    }

    proof fn parse_within(bytes: Seq<u8>) {
    }

    fn encode(&self, out: &mut Vec<u8>) -> (r: Result<(), EncodeFailed>) {
        appended(out, serialize_i32(*self))
    }

    fn decode(bytes: &[u8], at: usize) -> (r: Option<(Self, usize)>) {
        if at > bytes.len() {
            return None;
        }
        let rest = slice_subrange(bytes, at, bytes.len());
        match get_i32(rest) {
            Ok(x) => Some((x, at + 4)),
            Err(_) => None,
        }
    }

    fn duplicate(&self) -> (r: Self) {
        *self
    }
}

impl Key for i32 {
    fn same(&self, other: &Self) -> (r: bool) {
        *self == *other
    }
}

impl Codec for u32 {
    type Model = u32;

    open spec fn model(&self) -> u32 {
        *self
    }

    open spec fn fits(&self) -> bool {
        true
    }

    open spec fn accepted(&self) -> bool {
        serialized_u32(*self) is Some
    }

    open spec fn encoding(&self) -> Seq<u8> {
        u32_bytes(*self)
    }

    open spec fn parse(bytes: Seq<u8>) -> Option<(u32, nat)> {
        match parse_u32(bytes) {
            Some(x) => Some((x, 4nat)),
            None => None,
        }
    }

    proof fn parse_encoding(&self, rest: Seq<u8>) {
        lemma_u32_round_trip(*self, rest);
    }

    proof fn parse_within(bytes: Seq<u8>) {
    }

    fn encode(&self, out: &mut Vec<u8>) -> (r: Result<(), EncodeFailed>) {
        appended(out, serialize_u32(*self))
    }

    fn decode(bytes: &[u8], at: usize) -> (r: Option<(Self, usize)>) {
        if at > bytes.len() {
            return None;
        }
        let rest = slice_subrange(bytes, at, bytes.len());
        match get_u32(rest) {
            Ok(x) => Some((x, at + 4)),
            Err(_) => None,
        }
    }

    fn duplicate(&self) -> (r: Self) {
        *self
    }
}

impl Key for u32 {
    fn same(&self, other: &Self) -> (r: bool) {
        *self == *other
    }
}

impl Codec for u64 {
    type Model = u64;

    open spec fn model(&self) -> u64 {
        *self
    }

    open spec fn fits(&self) -> bool {
        true
    }

    open spec fn accepted(&self) -> bool {
        serialized_u64(*self) is Some
    }

    open spec fn encoding(&self) -> Seq<u8> {
        u64_bytes(*self)
    }

    open spec fn parse(bytes: Seq<u8>) -> Option<(u64, nat)> {
        match parse_u64(bytes) {
            Some(x) => Some((x, 8nat)),
            None => None,
        }
    }

    proof fn parse_encoding(&self, rest: Seq<u8>) {
        lemma_u64_round_trip(*self, rest);
    }

    proof fn parse_within(bytes: Seq<u8>) {
    }

    fn encode(&self, out: &mut Vec<u8>) -> (r: Result<(), EncodeFailed>) {
        appended(out, serialize_u64(*self))
    }

    fn decode(bytes: &[u8], at: usize) -> (r: Option<(Self, usize)>) {
        if at > bytes.len() {
            return None;
        }
        let rest = slice_subrange(bytes, at, bytes.len());
        match get_u64(rest) {
            Ok(x) => Some((x, at + 8)),
            Err(_) => None,
        }
    }

    fn duplicate(&self) -> (r: Self) {
        *self
    }
}

impl Key for u64 {
    fn same(&self, other: &Self) -> (r: bool) {
        *self == *other
    }
}

/// Moves the count of bytes used by a reading that began `by` bytes further
/// on back to where the whole reading began.
pub open spec fn shifted<T>(o: Option<(T, nat)>, by: nat) -> Option<(T, nat)> {
    match o {
        Some((v, n)) => Some((v, n + by)),
        None => None,
    }
}

impl Codec for String {
    type Model = Seq<char>;

    open spec fn model(&self) -> Seq<char> {
        self@
    }

    open spec fn fits(&self) -> bool {
        encode_utf8(self@).len() <= u64::MAX
    }

    open spec fn accepted(&self) -> bool {
        serialized_text(self@) is Some
    }

    open spec fn encoding(&self) -> Seq<u8> {
        text_bytes(self@)
    }

    open spec fn parse(bytes: Seq<u8>) -> Option<(Seq<char>, nat)> {
        parse_text(bytes)
    }

    proof fn parse_encoding(&self, rest: Seq<u8>) {
        lemma_text_round_trip(self@, rest);
    }

    proof fn parse_within(bytes: Seq<u8>) {
    }

    fn encode(&self, out: &mut Vec<u8>) -> (r: Result<(), EncodeFailed>) {
        let text = self.as_str().as_bytes();
        let n: usize = text.len();
        assert(encode_utf8(self@).len() == n <= u64::MAX);
        appended(out, serialize_text(self))
    }

    fn decode(bytes: &[u8], at: usize) -> (r: Option<(Self, usize)>) {
        if at > bytes.len() {
            return None;
        }
        let rest = slice_subrange(bytes, at, bytes.len());
        match get_text(rest) {
            Ok(s) => match get_u64(rest) {
                Ok(n) => Some((s, at + 8 + n as usize)),
                Err(_) => None,
            },
            Err(_) => None,
        }
    }

    fn duplicate(&self) -> (r: Self) {
        self.clone()
    }
}

impl Key for String {
    fn same(&self, other: &Self) -> (r: bool) {
        *self == *other
    }
}

/// A `u64` is read back from its own bytes, whatever follows them.
pub proof fn lemma_u64_round_trip(x: u64, rest: Seq<u8>)
    ensures
        u64_bytes(x).len() == 8,
        parse_u64(u64_bytes(x) + rest) == Some(x),
{
    lemma_auto_spec_u64_to_from_le_bytes();
    assert((u64_bytes(x) + rest).subrange(0, 8) =~= u64_bytes(x));
}

/// A `u32` is read back from its own bytes, whatever follows them.
pub proof fn lemma_u32_round_trip(x: u32, rest: Seq<u8>)
    ensures
        u32_bytes(x).len() == 4,
        parse_u32(u32_bytes(x) + rest) == Some(x),
{
    lemma_auto_spec_u32_to_from_le_bytes();
    assert((u32_bytes(x) + rest).subrange(0, 4) =~= u32_bytes(x));
}

/// An `i32` is read back from its own bytes, whatever follows them.
pub proof fn lemma_i32_round_trip(x: i32, rest: Seq<u8>)
    ensures
        i32_bytes(x).len() == 4,
        parse_i32(i32_bytes(x) + rest) == Some(x),
{
    lemma_auto_spec_u32_to_from_le_bytes();
    assert((i32_bytes(x) + rest).subrange(0, 4) =~= i32_bytes(x));
    assert((x as u32) as i32 == x) by (bit_vector);
}

/// A string is read back from its own bytes, whatever follows them, as long
/// as its length fits the length field.
pub proof fn lemma_text_round_trip(s: Seq<char>, rest: Seq<u8>)
    requires
        encode_utf8(s).len() <= u64::MAX,
    ensures
        text_bytes(s).len() == 8 + encode_utf8(s).len(),
        parse_text(text_bytes(s) + rest) == Some((s, text_bytes(s).len())),
{
    let body = encode_utf8(s);
    let n = body.len() as u64;
    let all = text_bytes(s) + rest;
    lemma_auto_spec_u64_to_from_le_bytes();
    assert(all.subrange(0, 8) =~= spec_u64_to_le_bytes(n));
    assert(all.subrange(8, 8 + n) =~= body);
    encode_utf8_valid_utf8(s);
    encode_utf8_decode_utf8(s);
}

} // verus!
