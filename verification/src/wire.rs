//! Scalars on the wire.
//!
//! Every scalar of a snapshot is written and read by `bincode`, in its
//! fixed-width little-endian layout. The functions here are the only place
//! where the crate calls it, and their contracts are taken on trust.
//!
//! Whether `bincode` lays a scalar out or reports an error is for `bincode`
//! to say. The crate only relies on its saying the same of the same scalar
//! every time.

use vstd::bytes::*;
use vstd::prelude::*;
use vstd::string::*;
use vstd::utf8::*;

verus! {

/// The error of `bincode`. It is carried from the calls below to their
/// callers, which do not look into it.
#[verifier::external_type_specification]
#[verifier::external_body]
pub struct ExErrorKind(bincode::ErrorKind);

/// The bytes of a `u64`: eight of them, least significant first.
pub open spec fn u64_bytes(x: u64) -> Seq<u8> {
    spec_u64_to_le_bytes(x)
}

/// The bytes of a `u32`: four of them, least significant first.
pub open spec fn u32_bytes(x: u32) -> Seq<u8> {
    spec_u32_to_le_bytes(x)
}

/// The bytes of an `i32`: those of the `u32` with the same bit pattern.
pub open spec fn i32_bytes(x: i32) -> Seq<u8> {
    spec_u32_to_le_bytes(x as u32)
}

/// The bytes of a string: its length in bytes as a `u64`, then its UTF-8 text.
pub open spec fn text_bytes(s: Seq<char>) -> Seq<u8> {
    spec_u64_to_le_bytes(encode_utf8(s).len() as u64) + encode_utf8(s)
}

/// The `u64` at the front of `bytes`, if eight bytes are there.
pub open spec fn parse_u64(bytes: Seq<u8>) -> Option<u64> {
    if bytes.len() >= 8 {
        Some(spec_u64_from_le_bytes(bytes.subrange(0, 8)))
    } else {
        None
    }
}

/// The `u32` at the front of `bytes`, if four bytes are there.
pub open spec fn parse_u32(bytes: Seq<u8>) -> Option<u32> {
    if bytes.len() >= 4 {
        Some(spec_u32_from_le_bytes(bytes.subrange(0, 4)))
    } else {
        None
    }
}

/// The `i32` at the front of `bytes`, if four bytes are there.
pub open spec fn parse_i32(bytes: Seq<u8>) -> Option<i32> {
    if bytes.len() >= 4 {
        Some(spec_u32_from_le_bytes(bytes.subrange(0, 4)) as i32)
    } else {
        None
    }
}

/// The string at the front of `bytes` and the number of bytes it takes up:
/// a length, then that many bytes of well-formed UTF-8.
pub open spec fn parse_text(bytes: Seq<u8>) -> Option<(Seq<char>, nat)> {
    if bytes.len() < 8 {
        None
    } else {
        let n = spec_u64_from_le_bytes(bytes.subrange(0, 8)) as int;
        if n > bytes.len() - 8 || !valid_utf8(bytes.subrange(8, 8 + n)) {
            None
        } else {
            Some((decode_utf8(bytes.subrange(8, 8 + n)), (8 + n) as nat))
        }
    }
}

// What `bincode::serialize` returns for a `u64`: the bytes, or `None` where
// it reports an error. Its documentation does not say when it does.
pub uninterp spec fn serialized_u64(x: u64) -> Option<Seq<u8>>;

// What `bincode::serialize` returns for a `u32`: the bytes, or `None` where
// it reports an error.
pub uninterp spec fn serialized_u32(x: u32) -> Option<Seq<u8>>;

// What `bincode::serialize` returns for an `i32`: the bytes, or `None` where
// it reports an error.
pub uninterp spec fn serialized_i32(x: i32) -> Option<Seq<u8>>;

// What `bincode::serialize` returns for a `String` with the text `s`: the
// bytes, or `None` where it reports an error.
pub uninterp spec fn serialized_text(s: Seq<char>) -> Option<Seq<u8>>;

/// Trusted: what `bincode::serialize` returns for a `u64` depends on the
/// number alone, and where it is bytes, these are the eight bytes of the
/// number, least significant first.
#[verifier::external_body]
pub(crate) fn serialize_u64(x: u64) -> (r: Result<Vec<u8>, bincode::Error>)
    ensures
        match r {
            Ok(bytes) => serialized_u64(x) == Some(bytes@) && bytes@ == u64_bytes(x),
            Err(_) => serialized_u64(x) is None,
        },
{
    bincode::serialize(&x)
}

/// Trusted: what `bincode::serialize` returns for a `u32` depends on the
/// number alone, and where it is bytes, these are the four bytes of the
/// number, least significant first.
#[verifier::external_body]
pub(crate) fn serialize_u32(x: u32) -> (r: Result<Vec<u8>, bincode::Error>)
    ensures
        match r {
            Ok(bytes) => serialized_u32(x) == Some(bytes@) && bytes@ == u32_bytes(x),
            Err(_) => serialized_u32(x) is None,
        },
{
    bincode::serialize(&x)
}

/// Trusted: what `bincode::serialize` returns for an `i32` depends on the
/// number alone, and where it is bytes, these are the four bytes of its
/// two's complement bit pattern, least significant first.
#[verifier::external_body]
pub(crate) fn serialize_i32(x: i32) -> (r: Result<Vec<u8>, bincode::Error>)
    ensures
        match r {
            Ok(bytes) => serialized_i32(x) == Some(bytes@) && bytes@ == i32_bytes(x),
            Err(_) => serialized_i32(x) is None,
        },
{
    bincode::serialize(&x)
}

/// Trusted: what `bincode::serialize` returns for a `String` depends on its
/// text alone, and where it is bytes, these are the length of the UTF-8 text
/// in bytes, as a `u64`, and then the text.
#[verifier::external_body]
pub(crate) fn serialize_text(s: &String) -> (r: Result<Vec<u8>, bincode::Error>)
    ensures
        match r {
            Ok(bytes) => serialized_text(s@) == Some(bytes@) && bytes@ == text_bytes(s@),
            Err(_) => serialized_text(s@) is None,
        },
{
    bincode::serialize(s)
}

/// Trusted: `bincode::deserialize` to a `u64` succeeds exactly when at least
/// eight bytes are there, and then gives the number that the first eight
/// spell, least significant first. Bytes that follow are ignored.
#[verifier::external_body]
pub(crate) fn get_u64(bytes: &[u8]) -> (r: Result<u64, bincode::Error>)
    ensures
        match r {
            Ok(x) => parse_u64(bytes@) == Some(x),
            Err(_) => parse_u64(bytes@) is None,
        },
{
    bincode::deserialize(bytes)
}

/// Trusted: `bincode::deserialize` to a `u32` succeeds exactly when at least
/// four bytes are there, and then gives the number that the first four spell,
/// least significant first. Bytes that follow are ignored.
#[verifier::external_body]
pub(crate) fn get_u32(bytes: &[u8]) -> (r: Result<u32, bincode::Error>)
    ensures
        match r {
            Ok(x) => parse_u32(bytes@) == Some(x),
            Err(_) => parse_u32(bytes@) is None,
        },
{
    bincode::deserialize(bytes)
}

/// Trusted: `bincode::deserialize` to an `i32` succeeds exactly when at least
/// four bytes are there, and then gives the number whose two's complement bit
/// pattern the first four spell, least significant first. Bytes that follow
/// are ignored.
#[verifier::external_body]
pub(crate) fn get_i32(bytes: &[u8]) -> (r: Result<i32, bincode::Error>)
    ensures
        match r {
            Ok(x) => parse_i32(bytes@) == Some(x),
            Err(_) => parse_i32(bytes@) is None,
        },
{
    bincode::deserialize(bytes)
}

/// Trusted: `bincode::deserialize` to a `String` reads a `u64` length, fails
/// when fewer bytes than that follow it or when they are not well-formed
/// UTF-8, and otherwise gives the string that they spell. Bytes that follow
/// the text are ignored.
#[verifier::external_body]
pub(crate) fn get_text(bytes: &[u8]) -> (r: Result<String, bincode::Error>)
    ensures
        match r {
            Ok(s) => parse_text(bytes@) matches Some((t, _)) && s@ == t,
            Err(_) => parse_text(bytes@) is None,
        },
{
    bincode::deserialize(bytes)
}

} // verus!
