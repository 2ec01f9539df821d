//! The trusted boundary to the MessagePack wire format.
//!
//! Each function here wraps one `rmp` routine. The byte shape a routine
//! produces is named, not restated: `mp_uint(v)` stands for whatever bytes
//! `rmp::encode::write_uint` emits for `v`, and so on. The readers'
//! contracts say that each reader inverts the matching writer: MessagePack
//! values are self-delimiting, so a well-formed prefix determines both the
//! value and the remainder.

use vstd::prelude::*;

use crate::errors::CodecError;

verus! {

/// The bytes `rmp::encode::write_uint` emits for `v`.
pub uninterp spec fn mp_uint(v: u64) -> Seq<u8>;

/// The bytes `rmp::encode::write_str` emits for a string with these
/// characters.
pub uninterp spec fn mp_str(s: Seq<char>) -> Seq<u8>;

/// The bytes `rmp::encode::write_array_len` emits for `n`.
pub uninterp spec fn mp_array(n: u32) -> Seq<u8>;

/// The bytes `rmp::encode::write_map_len` emits for `n`.
pub uninterp spec fn mp_map(n: u32) -> Seq<u8>;

/// The string is short enough that its UTF-8 length fits the wire format's
/// 32-bit length field (UTF-8 spends at most four bytes per character).
/// Only for such strings does a reader invert the writer.
pub open spec fn mp_str_wf(s: Seq<char>) -> bool {
    4 * s.len() <= u32::MAX
}

/// Relies on rmp::encode::write_uint: appends the MessagePack encoding of
/// `v` to the buffer; writing to a `Vec` cannot fail.
#[verifier::external_body]
pub(crate) fn write_uint(buf: &mut Vec<u8>, v: u64)
    ensures
        final(buf)@ == old(buf)@ + mp_uint(v),
{
    rmp::encode::write_uint(buf, v).unwrap();
}

/// Relies on rmp::encode::write_str: appends the MessagePack encoding of
/// `s` (a str marker and length, then the UTF-8 bytes) to the buffer;
/// writing to a `Vec` cannot fail.
#[verifier::external_body]
pub(crate) fn write_str(buf: &mut Vec<u8>, s: &str)
    ensures
        final(buf)@ == old(buf)@ + mp_str(s@),
{
    rmp::encode::write_str(buf, s).unwrap();
}

/// Relies on rmp::encode::write_array_len: appends the MessagePack array
/// header for `n` elements to the buffer; writing to a `Vec` cannot fail.
#[verifier::external_body]
pub(crate) fn write_array_len(buf: &mut Vec<u8>, n: u32)
    ensures
        final(buf)@ == old(buf)@ + mp_array(n),
{
    rmp::encode::write_array_len(buf, n).unwrap();
}

/// Relies on rmp::encode::write_map_len: appends the MessagePack map
/// header for `n` entries to the buffer; writing to a `Vec` cannot fail.
#[verifier::external_body]
pub(crate) fn write_map_len(buf: &mut Vec<u8>, n: u32)
    ensures
        final(buf)@ == old(buf)@ + mp_map(n),
{
    rmp::encode::write_map_len(buf, n).unwrap();
}

/// Relies on rmp::decode::read_int: on input that starts with the encoding
/// of an unsigned integer it returns that integer and the bytes after it;
/// the encoding is self-delimiting, so the split is unique.
#[verifier::external_body]
pub(crate) fn read_uint<'a>(bytes: &'a [u8]) -> (r: Result<(u64, &'a [u8]), CodecError>)
    ensures
        match r {
            Ok(p) => forall|v: u64, rest: Seq<u8>| bytes@ == mp_uint(v) + rest ==> p.0 == v
                && p.1@ == rest,
            Err(_) => forall|v: u64, rest: Seq<u8>| bytes@ != mp_uint(v) + rest,
        },
{
    let mut rd = bytes;
    match rmp::decode::read_int::<u64, _>(&mut rd) {
        Ok(v) => Ok((v, rd)),
        Err(_) => Err(CodecError::Format),
    }
}

/// Relies on rmp::decode::read_str_from_slice: on input that starts with
/// the encoding of a string whose UTF-8 length fits the 32-bit length
/// field, it returns that string and the bytes after it.
#[verifier::external_body]
pub(crate) fn read_str<'a>(bytes: &'a [u8]) -> (r: Result<(String, &'a [u8]), CodecError>)
    ensures
        match r {
            Ok(p) => forall|s: Seq<char>, rest: Seq<u8>|
                mp_str_wf(s) && bytes@ == mp_str(s) + rest ==> p.0@ == s && p.1@ == rest,
            Err(_) => forall|s: Seq<char>, rest: Seq<u8>|
                !(mp_str_wf(s) && bytes@ == mp_str(s) + rest),
        },
{
    match rmp::decode::read_str_from_slice(bytes) {
        Ok((s, rest)) => Ok((s.to_owned(), rest)),
        Err(_) => Err(CodecError::Format),
    }
}

/// Relies on rmp::decode::read_array_len: on input that starts with an
/// array header it returns the element count and the bytes after the
/// header.
#[verifier::external_body]
pub(crate) fn read_array_len<'a>(bytes: &'a [u8]) -> (r: Result<(u32, &'a [u8]), CodecError>)
    ensures
        match r {
            Ok(p) => forall|n: u32, rest: Seq<u8>| bytes@ == mp_array(n) + rest ==> p.0 == n
                && p.1@ == rest,
            Err(_) => forall|n: u32, rest: Seq<u8>| bytes@ != mp_array(n) + rest,
        },
{
    let mut rd = bytes;
    match rmp::decode::read_array_len(&mut rd) {
        Ok(n) => Ok((n, rd)),
        Err(_) => Err(CodecError::Format),
    }
}

/// Relies on rmp::decode::read_map_len: on input that starts with a map
/// header it returns the entry count and the bytes after the header.
#[verifier::external_body]
pub(crate) fn read_map_len<'a>(bytes: &'a [u8]) -> (r: Result<(u32, &'a [u8]), CodecError>)
    ensures
        match r {
            Ok(p) => forall|n: u32, rest: Seq<u8>| bytes@ == mp_map(n) + rest ==> p.0 == n
                && p.1@ == rest,
            Err(_) => forall|n: u32, rest: Seq<u8>| bytes@ != mp_map(n) + rest,
        },
{
    let mut rd = bytes;
    match rmp::decode::read_map_len(&mut rd) {
        Ok(n) => Ok((n, rd)),
        Err(_) => Err(CodecError::Format),
    }
}

} // verus!
