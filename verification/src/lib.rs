//! A generic, embeddable core for stack-based virtual machines.
//!
//! Callers define their own instruction set (op codes, mnemonics, arity,
//! handlers) and operand type; this crate supplies program assembly
//! (`Builder`), an immutable compiled form (`Code`), a binary codec, and an
//! execution engine (`Machine`) with call frames and label-based jumps.

pub use vstd::view::View;

mod builder;
mod code;
mod code_deserialize;
mod code_serialize;
mod codec;
mod errors;
mod frame;
mod instruction;
mod instruction_table;
mod immutable_table;
mod label;
mod label_ref;
mod machine;
mod msgpack;
mod mutable_table;
mod render;
mod stack;
mod table;

pub use builder::Builder;
pub use code::Code;
pub use code::CodeView;
pub use code_deserialize::CodeDeserialize;
pub use code_serialize::CodeSerialize;
pub use errors::BuildError;
pub use errors::CodecError;
pub use errors::MachineError;
pub use frame::Frame;
pub use instruction::Instruction;
pub use instruction::InstructionHandler;
pub use instruction_table::InstructionTable;
pub use immutable_table::ImmutableTable;
pub use label::Label;
pub use label_ref::LabelRef;
pub use machine::Machine;
pub use mutable_table::MutableTable;
pub use render::Render;
pub use stack::Stack;
pub use table::Table;
