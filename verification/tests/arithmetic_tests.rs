//! An arithmetic machine: a basic calculator over float operands.

use stack_vm::Builder;
use stack_vm::Code;
use stack_vm::Instruction;
use stack_vm::InstructionHandler;
use stack_vm::InstructionTable;
use stack_vm::Machine;
use stack_vm::MutableTable;

#[derive(Clone, Copy, PartialEq, Debug)]
enum ArithOp {
    Push,
    Add,
    Sub,
    Div,
    Mult,
}

type ArithMachine<'a> = Machine<'a, f64, ArithOp, MutableTable<f64>>;

impl<'a> InstructionHandler<ArithMachine<'a>> for ArithOp {
    fn handle(&self, machine: &mut ArithMachine<'a>, args: &[usize]) {
        match self {
            ArithOp::Push => {
                let arg = *machine.get_data(args[0]);
                machine.operand_push(arg);
            },
            ArithOp::Add => {
                let rhs = machine.operand_pop();
                let lhs = machine.operand_pop();
                machine.operand_push(lhs + rhs);
            },
            ArithOp::Sub => {
                let rhs = machine.operand_pop();
                let lhs = machine.operand_pop();
                machine.operand_push(lhs - rhs);
            },
            ArithOp::Div => {
                let rhs = machine.operand_pop();
                let lhs = machine.operand_pop();
                machine.operand_push(lhs / rhs);
            },
            ArithOp::Mult => {
                let rhs = machine.operand_pop();
                let lhs = machine.operand_pop();
                machine.operand_push(lhs * rhs);
            },
        }
    }
}

fn instruction_table() -> InstructionTable<ArithOp> {
    let mut it = InstructionTable::new();
    it.insert(Instruction::new(0, "push", 1, ArithOp::Push));
    it.insert(Instruction::new(1, "add", 0, ArithOp::Add));
    it.insert(Instruction::new(2, "sub", 0, ArithOp::Sub));
    it.insert(Instruction::new(3, "div", 0, ArithOp::Div));
    it.insert(Instruction::new(4, "mult", 0, ArithOp::Mult));
    it
}

#[test]
fn arithmetic_addition_example() {
    let it = instruction_table();
    let mut builder: Builder<f64, ArithOp> = Builder::new(&it);
    builder.push(0, vec![2.0]).unwrap();
    builder.push(0, vec![3.0]).unwrap();
    builder.push(1, vec![]).unwrap();
    builder.push(0, vec![4.0]).unwrap();
    builder.push(1, vec![]).unwrap();
    let constants: MutableTable<f64> = MutableTable::new();
    let machine = Machine::new(Code::from_builder(builder), &constants, &it);
    let mut machine = Machine::run(machine).unwrap();
    let result = machine.operand_pop();
    assert_eq!(result, 9.0);
}

#[test]
fn arithmetic_subtraction_example() {
    let it = instruction_table();
    let mut builder: Builder<f64, ArithOp> = Builder::new(&it);
    builder.push(0, vec![3.0]).unwrap();
    builder.push(0, vec![4.0]).unwrap();
    builder.push(1, vec![]).unwrap();
    builder.push(0, vec![2.0]).unwrap();
    builder.push(2, vec![]).unwrap();
    let constants: MutableTable<f64> = MutableTable::new();
    let machine = Machine::new(Code::from_builder(builder), &constants, &it);
    let mut machine = Machine::run(machine).unwrap();
    let result = machine.operand_pop();
    assert_eq!(result, 5.0);
}

#[test]
fn arithmetic_division_example() {
    let it = instruction_table();
    let mut builder: Builder<f64, ArithOp> = Builder::new(&it);
    builder.push(0, vec![3.0]).unwrap();
    builder.push(0, vec![4.0]).unwrap();
    builder.push(3, vec![]).unwrap();
    let constants: MutableTable<f64> = MutableTable::new();
    let machine = Machine::new(Code::from_builder(builder), &constants, &it);
    let mut machine = Machine::run(machine).unwrap();
    let result = machine.operand_pop();
    assert_eq!(result, 0.75);
}

#[test]
fn arithmetic_multiplication_example() {
    let it = instruction_table();
    let mut builder: Builder<f64, ArithOp> = Builder::new(&it);
    builder.push(0, vec![3.0]).unwrap();
    builder.push(0, vec![4.0]).unwrap();
    builder.push(4, vec![]).unwrap();
    let constants: MutableTable<f64> = MutableTable::new();
    let machine = Machine::new(Code::from_builder(builder), &constants, &it);
    let mut machine = Machine::run(machine).unwrap();
    let result = machine.operand_pop();
    assert_eq!(result, 12.0);
}
