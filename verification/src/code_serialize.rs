//! The capability of writing a value out as byte code.

use vstd::prelude::*;

verus! {

/// The ability to append a value's byte code to a buffer.
///
/// A `Code` whose operand type supplies this capability can be serialized;
/// the codec never inspects operand contents itself. `byte_code` is the
/// exact byte sequence `to_byte_code` appends, so that a matching
/// deserializer can state that it inverts this writer.
pub trait CodeSerialize: Sized {
    /// The bytes `to_byte_code` appends for this value. An implementation
    /// that verified code serializes states its own byte code; the default
    /// stands for implementations outside of verification, which need not
    /// name one.
    open spec fn byte_code(&self) -> Seq<u8> {
        Seq::empty()
    }

    /// Every length in the value fits the wire format's length fields.
    open spec fn serial_wf(&self) -> bool {
        true
    }

    /// Append this value's byte code to `buf`.
    fn to_byte_code(&self, buf: &mut Vec<u8>)
        requires
            self.serial_wf(),
        ensures
            final(buf)@ == old(buf)@ + self.byte_code(),
    ;
}

} // verus!
