//! A function-calling machine: labels as call targets, `ret` to come back.
//!
//! Labels are stored as string operands in the data section, so the operand
//! type must be able to carry a string the `call` handler can jump to.

use stack_vm::Builder;
use stack_vm::Code;
use stack_vm::Instruction;
use stack_vm::InstructionHandler;
use stack_vm::InstructionTable;
use stack_vm::Machine;
use stack_vm::MutableTable;

/// An operand type able to carry integers and label names.
#[derive(Clone, Debug, PartialEq)]
enum Operand {
    I(i64),
    S(String),
}

impl Operand {
    fn to_i(&self) -> Option<i64> {
        match self {
            &Operand::I(i) => Some(i),
            _ => None,
        }
    }

    fn to_s(&self) -> Option<&str> {
        match self {
            &Operand::S(ref s) => Some(s),
            _ => None,
        }
    }
}

#[derive(Clone, Copy, PartialEq, Debug)]
enum FuncOp {
    Push,
    Add,
    Call,
    Ret,
}

type FuncMachine<'a> = Machine<'a, Operand, FuncOp, MutableTable<Operand>>;

impl<'a> InstructionHandler<FuncMachine<'a>> for FuncOp {
    fn handle(&self, machine: &mut FuncMachine<'a>, args: &[usize]) {
        match self {
            FuncOp::Push => {
                let arg = machine.get_data(args[0]).clone();
                machine.operand_push(arg);
            },
            FuncOp::Add => {
                let rhs = machine.operand_pop().to_i().unwrap();
                let lhs = machine.operand_pop().to_i().unwrap();
                machine.operand_push(Operand::I(lhs + rhs));
            },
            FuncOp::Call => {
                let label = machine.get_data(args[0]).clone();
                machine.jump(label.to_s().unwrap()).unwrap();
            },
            FuncOp::Ret => {
                machine.ret().unwrap();
            },
        }
    }
}

fn instruction_table() -> InstructionTable<FuncOp> {
    let mut it = InstructionTable::new();
    it.insert(Instruction::new(0, "push", 1, FuncOp::Push));
    it.insert(Instruction::new(1, "add", 0, FuncOp::Add));
    it.insert(Instruction::new(2, "call", 1, FuncOp::Call));
    it.insert(Instruction::new(3, "ret", 0, FuncOp::Ret));
    it
}

fn op_i(i: i64) -> Operand {
    Operand::I(i)
}

fn op_s(s: &str) -> Operand {
    Operand::S(String::from(s))
}

#[test]
fn example() {
    let it = instruction_table();
    let mut builder: Builder<Operand, FuncOp> = Builder::new(&it);
    builder.push(0, vec![op_i(3)]).unwrap();
    builder.push(0, vec![op_i(4)]).unwrap();
    builder.push(2, vec![op_s("add_fun")]).unwrap();
    builder.push(3, vec![]).unwrap();
    builder.label("add_fun").unwrap();
    builder.push(1, vec![]).unwrap();
    builder.push(3, vec![]).unwrap();
    let constants: MutableTable<Operand> = MutableTable::new();
    let machine: FuncMachine = Machine::new(Code::from_builder(builder), &constants, &it);
    let mut machine = Machine::run(machine).unwrap();
    let result = machine.operand_pop().to_i().unwrap();
    assert_eq!(result, 7);
}
