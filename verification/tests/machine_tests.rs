use stack_vm::Builder;
use stack_vm::Code;
use stack_vm::Instruction;
use stack_vm::InstructionHandler;
use stack_vm::InstructionTable;
use stack_vm::Machine;
use stack_vm::MachineError;
use stack_vm::MutableTable;

#[derive(Clone, Copy, PartialEq, Debug)]
enum UOp {
    Push,
    Add,
}

type UMachine<'a> = Machine<'a, usize, UOp, MutableTable<usize>>;

impl<'a> InstructionHandler<UMachine<'a>> for UOp {
    fn handle(&self, machine: &mut UMachine<'a>, args: &[usize]) {
        match self {
            UOp::Push => {
                let arg = *machine.get_data(args[0]);
                machine.operand_push(arg);
            },
            UOp::Add => {
                let rhs = machine.operand_pop();
                let lhs = machine.operand_pop();
                machine.operand_push(lhs + rhs);
            },
        }
    }
}

fn instruction_table() -> InstructionTable<UOp> {
    let mut it = InstructionTable::new();
    it.insert(Instruction::new(1, "push", 1, UOp::Push));
    it.insert(Instruction::new(2, "add", 0, UOp::Add));
    it
}

#[test]
fn machine_new() {
    let it = instruction_table();
    let builder: Builder<usize, UOp> = Builder::new(&it);
    let constants: MutableTable<usize> = MutableTable::new();
    let machine = Machine::new(Code::from_builder(builder), &constants, &it);
    assert_eq!(machine.ip(), 0);
    assert!(!machine.call_stack().is_empty());
    assert!(machine.operand_stack().is_empty());
}

#[test]
fn run() {
    let it = instruction_table();
    let mut builder: Builder<usize, UOp> = Builder::new(&it);
    builder.push(1, vec![2]).unwrap();
    builder.push(1, vec![3]).unwrap();
    builder.push(2, vec![]).unwrap();
    let constants: MutableTable<usize> = MutableTable::new();
    let machine = Machine::new(Code::from_builder(builder), &constants, &it);
    let mut machine = Machine::run(machine).unwrap();
    let result = machine.operand_pop();
    assert_eq!(result, 5);
}

#[test]
fn get_local() {
    let it = instruction_table();
    let builder: Builder<usize, UOp> = Builder::new(&it);
    let constants: MutableTable<usize> = MutableTable::new();
    let mut machine = Machine::new(Code::from_builder(builder), &constants, &it);
    assert!(machine.get_local("example").is_none());
    machine.set_local("example", 13);
    assert!(machine.get_local("example").is_some());
}

#[test]
fn get_local_deep() {
    let it = instruction_table();
    let mut builder: Builder<usize, UOp> = Builder::new(&it);
    builder.label("next").unwrap();

    let constants: MutableTable<usize> = MutableTable::new();
    let mut machine = Machine::new(Code::from_builder(builder), &constants, &it);
    machine.set_local("outer", 13);
    assert_eq!(*machine.get_local_deep("outer").unwrap(), 13);
    machine.jump("next").unwrap();
    machine.set_local("outer", 14);
    machine.set_local("inner", 15);
    assert_eq!(*machine.get_local_deep("outer").unwrap(), 14);
    assert_eq!(*machine.get_local_deep("inner").unwrap(), 15);
    machine.ret().unwrap();
    assert_eq!(*machine.get_local_deep("outer").unwrap(), 13);
    assert!(machine.get_local_deep("inner").is_none());
}

#[test]
fn set_local() {
    let it = instruction_table();
    let builder: Builder<usize, UOp> = Builder::new(&it);
    let constants: MutableTable<usize> = MutableTable::new();
    let mut machine = Machine::new(Code::from_builder(builder), &constants, &it);
    assert!(machine.get_local("example").is_none());
    machine.set_local("example", 13);
    assert_eq!(*machine.get_local("example").unwrap(), 13);
}

#[test]
fn jump_to_unknown_label_fails_without_partial_jump() {
    let it = instruction_table();
    let mut builder: Builder<usize, UOp> = Builder::new(&it);
    builder.push(1, vec![2]).unwrap();
    let constants: MutableTable<usize> = MutableTable::new();
    let mut machine = Machine::new(Code::from_builder(builder), &constants, &it);
    let ip_before = machine.ip();
    let depth_before = machine.call_stack().len();
    assert_eq!(machine.jump("nowhere"), Err(MachineError::UnknownLabel));
    assert_eq!(machine.ip(), ip_before);
    assert_eq!(machine.call_stack().len(), depth_before);
}

#[test]
fn over_return_fails() {
    let it = instruction_table();
    let builder: Builder<usize, UOp> = Builder::new(&it);
    let constants: MutableTable<usize> = MutableTable::new();
    let mut machine = Machine::new(Code::from_builder(builder), &constants, &it);
    assert_eq!(machine.ret(), Ok(()));
    assert_eq!(machine.ret(), Err(MachineError::CallStackUnderflow));
}

#[test]
fn fetch_decode_hands_over_raw_slots_and_advances() {
    let it = instruction_table();
    let mut builder: Builder<usize, UOp> = Builder::new(&it);
    builder.push(1, vec![7]).unwrap();
    builder.push(2, vec![]).unwrap();
    let constants: MutableTable<usize> = MutableTable::new();
    let mut machine = Machine::new(Code::from_builder(builder), &constants, &it);
    let (op, args) = machine.fetch_decode().unwrap();
    assert_eq!(op, UOp::Push);
    assert_eq!(args, vec![0]);
    assert_eq!(machine.ip(), 2);
    let (op, args) = machine.fetch_decode().unwrap();
    assert_eq!(op, UOp::Add);
    assert!(args.is_empty());
    assert_eq!(machine.ip(), 3);
}

#[test]
fn run_reports_unknown_op_code() {
    let it = instruction_table();
    let mut builder: Builder<usize, UOp> = Builder::new(&it);
    builder.push(1, vec![2]).unwrap();
    let code = Code::from_builder(builder);
    let mut other = InstructionTable::new();
    other.insert(Instruction::new(7, "push", 1, UOp::Push));
    let constants: MutableTable<usize> = MutableTable::new();
    let machine = Machine::new(code, &constants, &other);
    assert_eq!(Machine::run(machine).err(), Some(MachineError::UnknownOpCode));
}

#[test]
fn run_on_empty_program_halts_at_once() {
    let it = instruction_table();
    let builder: Builder<usize, UOp> = Builder::new(&it);
    let constants: MutableTable<usize> = MutableTable::new();
    let machine = Machine::new(Code::from_builder(builder), &constants, &it);
    let machine = Machine::run(machine).unwrap();
    assert_eq!(machine.ip(), 0);
    assert!(machine.operand_stack().is_empty());
}
