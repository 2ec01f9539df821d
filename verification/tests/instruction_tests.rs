use stack_vm::Instruction;
use stack_vm::InstructionHandler;
use stack_vm::InstructionTable;
use stack_vm::Machine;
use stack_vm::MutableTable;

#[derive(Clone, Copy, PartialEq, Debug)]
struct Noop;

impl<'a> InstructionHandler<Machine<'a, usize, Noop, MutableTable<usize>>> for Noop {
    fn handle(&self, _machine: &mut Machine<'a, usize, Noop, MutableTable<usize>>, _args: &[usize]) {}
}

#[test]
fn instruction_table_new() {
    let table: InstructionTable<Noop> = InstructionTable::new();
    assert!(table.is_empty())
}

#[test]
fn instruction_table_insert() {
    let mut table: InstructionTable<Noop> = InstructionTable::new();
    assert!(table.is_empty());
    table.insert(Instruction::new(0, "NOOP", 0, Noop));
    assert!(!table.is_empty());
}

fn base_instruction_table() -> InstructionTable<Noop> {
    let mut it = InstructionTable::new();
    it.insert(Instruction::new(0, "noop", 0, Noop));
    it.insert(Instruction::new(1, "push", 1, Noop));
    it.insert(Instruction::new(2, "pop", 0, Noop));
    it
}

#[test]
fn for_op_code() {
    let it = base_instruction_table();
    let instr = it.by_op_code(0).unwrap();
    assert_eq!(instr.op_code, 0);
    assert_eq!(instr.name, "noop");
    assert!(it.by_op_code(9).is_none());
}

#[test]
fn by_name() {
    let it = base_instruction_table();
    let instr = it.by_name("noop").unwrap();
    assert_eq!(instr.op_code, 0);
    assert_eq!(instr.name, "noop");
    assert!(it.by_name("missing").is_none());
}

#[test]
fn insert_replaces_by_op_code() {
    let mut table: InstructionTable<Noop> = InstructionTable::new();
    table.insert(Instruction::new(0, "first", 0, Noop));
    table.insert(Instruction::new(0, "second", 2, Noop));
    let instr = table.by_op_code(0).unwrap();
    assert_eq!(instr.name, "second".to_string());
    assert_eq!(instr.arity, 2);
    assert_eq!(table.symbols(), vec![(0, "second".to_string())]);
}
