//! The capability of reading a value back from byte code.

use vstd::prelude::*;

use crate::code_serialize::CodeSerialize;
use crate::errors::CodecError;

verus! {

/// The ability to read a value from the front of a byte slice.
///
/// The contract ties the reader to the writer: on input that starts with
/// the byte code of a well-formed value, the reader succeeds, returns a
/// value with the same view, and hands back exactly the bytes that follow.
/// On any other input nothing is promised beyond a result; the codec
/// treats a failure as a fatal format error.
pub trait CodeDeserialize: CodeSerialize + View {
    /// Read one value off the front of `bytes`; return it with the bytes
    /// that follow it.
    fn from_byte_code<'a>(bytes: &'a [u8]) -> (r: Result<(Self, &'a [u8]), CodecError>)
        ensures
            forall|x: Self, rest: Seq<u8>| x.serial_wf() && bytes@ == x.byte_code() + rest ==> (
            r matches Ok(p) && p.0@ == x@ && p.1@ == rest),
    ;
}

} // verus!
