//! A virtual instruction: an op code, a mnemonic, an arity and a handler.

use vstd::prelude::*;

verus! {

/// The capability an instruction's handler supplies.
///
/// `M` is the machine-state type the handler acts on. A handler receives the
/// machine and the raw operand-slot indices fetched for the instruction; it
/// may push or pop operands, read or write locals, read the data section, and
/// ask for a jump or a return. Nothing is assumed of what a handler does:
/// code that runs handlers must hold for every possible outcome.
pub trait InstructionHandler<M> {
    /// Execute one instruction on the machine.
    fn handle(&self, machine: &mut M, args: &[usize]);
}

/// Describes a single instruction usable in programs.
///
/// Contains:
/// * An op code - a unique integer identifying this instruction.
/// * A name, for rendering and serialisation.
/// * An arity - the number of operand-slot indices it consumes.
/// * A handler which executes it.
pub struct Instruction<H> {
    /// The unique integer identifying this instruction.
    pub op_code: usize,
    /// The instruction's mnemonic.
    pub name: String,
    /// How many operand-data references the instruction takes.
    pub arity: usize,
    /// The handler invoked to execute the instruction.
    pub fun: H,
}

impl<H> Instruction<H> {
    /// Create a new instruction.
    pub fn new(op_code: usize, name: &str, arity: usize, fun: H) -> (r: Instruction<H>)
        ensures
            r.op_code == op_code,
            r.name@ == name@,
            r.arity == arity,
            r.fun == fun,
    {
        Instruction { op_code, name: String::from_str(name), arity, fun }
    }
}

} // verus!
