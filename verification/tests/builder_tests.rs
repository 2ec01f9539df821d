use stack_vm::BuildError;
use stack_vm::Builder;
use stack_vm::Instruction;
use stack_vm::InstructionHandler;
use stack_vm::InstructionTable;
use stack_vm::Machine;
use stack_vm::MutableTable;
use stack_vm::Render;
use stack_vm::Table;

#[derive(Clone, Copy, PartialEq, Debug)]
struct Num(usize);

impl Render for Num {
    fn render(&self) -> String {
        format!("{}", self.0)
    }
}

#[derive(Clone, Copy, PartialEq, Debug)]
struct Noop;

impl<'a> InstructionHandler<Machine<'a, Num, Noop, MutableTable<Num>>> for Noop {
    fn handle(&self, _machine: &mut Machine<'a, Num, Noop, MutableTable<Num>>, _args: &[usize]) {}
}

fn example_instruction_table() -> InstructionTable<Noop> {
    let mut it = InstructionTable::new();
    it.insert(Instruction::new(0, "noop", 0, Noop));
    it.insert(Instruction::new(1, "push", 1, Noop));
    it.insert(Instruction::new(2, "pop", 0, Noop));
    it
}

#[test]
fn builder_new() {
    let it = example_instruction_table();
    let builder: Builder<Num, Noop> = Builder::new(&it);
    assert!(builder.len() == 0);
}

#[test]
fn builder_push() {
    let it = example_instruction_table();
    let mut builder: Builder<Num, Noop> = Builder::new(&it);
    builder.push(0, vec![]).unwrap();
    assert!(builder.len() != 0);
}

#[test]
fn push_with_incorrect_arity_fails() {
    let it = example_instruction_table();
    let mut builder: Builder<Num, Noop> = Builder::new(&it);
    assert_eq!(builder.push(0, vec![Num(1)]), Err(BuildError::WrongArity));
}

#[test]
fn push_failure_leaves_builder_unchanged() {
    let it = example_instruction_table();
    let mut builder: Builder<Num, Noop> = Builder::new(&it);
    builder.push(1, vec![Num(7)]).unwrap();
    let len_before = builder.len();
    assert_eq!(builder.push(0, vec![Num(1)]), Err(BuildError::WrongArity));
    assert_eq!(builder.push(9, vec![]), Err(BuildError::UnknownOpCode));
    assert_eq!(builder.len(), len_before);
    let listing = builder.render();
    assert_eq!(listing, "@0 = 7\n\n.main:\n\tpush @0\n");
}

#[test]
fn label() {
    let it = example_instruction_table();
    let mut builder: Builder<Num, Noop> = Builder::new(&it);
    builder.push(0, vec![]).unwrap();
    builder.label("wow").unwrap();
    assert_eq!(*builder.labels().get("wow").unwrap(), 1);
}

#[test]
fn label_redefinition_fails() {
    let it = example_instruction_table();
    let mut builder: Builder<Num, Noop> = Builder::new(&it);
    builder.label("wow").unwrap();
    assert_eq!(builder.label("wow"), Err(BuildError::DuplicateLabel));
}

#[test]
fn debug_format() {
    let it = example_instruction_table();
    let mut builder: Builder<Num, Noop> = Builder::new(&it);
    builder.push(0, vec![]).unwrap();
    builder.push(1, vec![Num(123)]).unwrap();
    builder.push(1, vec![Num(456)]).unwrap();
    builder.label("some_function").unwrap();
    builder.push(2, vec![]).unwrap();

    let actual = builder.render();
    let expected = "@0 = 123
@1 = 456

.main:
\tnoop
\tpush @0
\tpush @1

.some_function:
\tpop
";
    assert_eq!(actual, expected);
}
