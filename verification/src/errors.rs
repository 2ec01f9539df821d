//! The failure values of assembly, execution and the codec.

use vstd::prelude::*;

verus! {

/// A fault detected while assembling a program.
///
/// These indicate a bug in the instruction-set author's own assembly code;
/// a failed operation leaves the `Builder` untouched.
#[derive(Clone, Copy, Debug, PartialEq, Eq, Structural)]
pub enum BuildError {
    /// `push` named an op code that is not in the instruction table.
    UnknownOpCode,
    /// `push` was given more or fewer operands than the instruction's arity.
    WrongArity,
    /// `label` named a label that is already bound.
    DuplicateLabel,
}

/// A fault detected while executing a program.
///
/// These indicate a corrupt or ill-formed compiled program; the core treats
/// them as unrecoverable for the current execution.
#[derive(Clone, Copy, Debug, PartialEq, Eq, Structural)]
pub enum MachineError {
    /// The op code fetched at the instruction pointer is not registered.
    UnknownOpCode,
    /// The instruction stream ends inside an instruction's operand slots, or
    /// the instruction pointer moved past the end of the stream.
    TruncatedStream,
    /// A jump named a label that the program does not define.
    UnknownLabel,
    /// A return was asked for when the call stack was already empty.
    CallStackUnderflow,
    /// The dispatch loop was abandoned after an enormous number of steps
    /// (`u64::MAX`). The budget is what makes the executor provably total;
    /// no terminating instruction set can exhaust it.
    StepLimit,
}

/// A fault detected while decoding a serialized program.
///
/// The input is treated as corrupt; nothing of it is recovered.
#[derive(Clone, Copy, Debug, PartialEq, Eq, Structural)]
pub enum CodecError {
    /// A section tag, count or payload was not as the format requires.
    Format,
}

} // verus!
