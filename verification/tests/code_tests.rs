use stack_vm::Builder;
use stack_vm::Code;
use stack_vm::CodeDeserialize;
use stack_vm::CodeSerialize;
use stack_vm::CodecError;
use stack_vm::Instruction;
use stack_vm::InstructionHandler;
use stack_vm::InstructionTable;
use stack_vm::Machine;
use stack_vm::MachineError;
use stack_vm::MutableTable;
use stack_vm::Render;
use stack_vm::View;

#[derive(Clone, Copy, PartialEq, Debug)]
struct Num(usize);

impl Render for Num {
    fn render(&self) -> String {
        format!("{}", self.0)
    }
}

impl View for Num {
    type V = Num;

    fn view(&self) -> Num {
        *self
    }
}

impl CodeSerialize for Num {
    fn to_byte_code(&self, buf: &mut Vec<u8>) {
        rmp::encode::write_uint(buf, self.0 as u64).unwrap();
    }
}

impl CodeDeserialize for Num {
    fn from_byte_code<'a>(bytes: &'a [u8]) -> Result<(Self, &'a [u8]), CodecError> {
        let mut rd = bytes;
        match rmp::decode::read_int::<u64, _>(&mut rd) {
            Ok(v) => Ok((Num(v as usize), rd)),
            Err(_) => Err(CodecError::Format),
        }
    }
}

#[derive(Clone, Copy, PartialEq, Debug)]
struct Noop;

impl<'a> InstructionHandler<Machine<'a, Num, Noop, MutableTable<Num>>> for Noop {
    fn handle(&self, _machine: &mut Machine<'a, Num, Noop, MutableTable<Num>>, _args: &[usize]) {}
}

fn example_instruction_table() -> InstructionTable<Noop> {
    let mut it = InstructionTable::new();
    it.insert(Instruction::new(0, "noop", 0, Noop));
    it.insert(Instruction::new(1, "push", 1, Noop));
    it.insert(Instruction::new(2, "pop", 0, Noop));
    it
}

fn example_code() -> Code<Num> {
    let it = example_instruction_table();
    let mut builder: Builder<Num, Noop> = Builder::new(&it);
    builder.push(0, vec![]).unwrap();
    builder.push(1, vec![Num(123)]).unwrap();
    builder.push(1, vec![Num(456)]).unwrap();
    builder.label("some_function").unwrap();
    builder.push(2, vec![]).unwrap();
    Code::from_builder(builder)
}

const EXAMPLE_BYTES: [u8; 78] = [
    132, 164, 99, 111, 100, 101, 150, 0, 1, 0, 1, 1, 2, 164, 100, 97, 116, 97, 146, 123, 205, 1,
    200, 167, 115, 121, 109, 98, 111, 108, 115, 150, 0, 164, 110, 111, 111, 112, 1, 164, 112, 117,
    115, 104, 2, 163, 112, 111, 112, 166, 108, 97, 98, 101, 108, 115, 148, 0, 164, 109, 97, 105,
    110, 5, 173, 115, 111, 109, 101, 95, 102, 117, 110, 99, 116, 105, 111, 110,
];

#[test]
fn from_builder() {
    let it = example_instruction_table();
    let mut builder: Builder<Num, Noop> = Builder::new(&it);
    builder.push(1, vec![Num(13)]).unwrap();
    builder.push(1, vec![Num(14)]).unwrap();
    let code: Code<Num> = Code::from_builder(builder);

    assert_eq!(code.symbols().len(), 3);
    assert_eq!(code.symbols()[0], (0 as usize, "noop".to_string()));
    assert_eq!(code.symbols()[1], (1 as usize, "push".to_string()));
    assert_eq!(code.symbols()[2], (2 as usize, "pop".to_string()));

    assert_eq!(code.code(), [1, 0, 1, 1]);
    assert_eq!(code.data(), [Num(13), Num(14)]);
    assert_eq!(code.labels().len(), 1);
    assert_eq!(code.labels()[0], (0 as usize, "main".to_string()));
}

#[test]
fn get_label_ip() {
    let it = example_instruction_table();
    let builder: Builder<Num, Noop> = Builder::new(&it);
    let code: Code<Num> = Code::from_builder(builder);
    assert_eq!(code.get_label_ip("main").unwrap(), 0);
    assert!(code.get_label_ip("missing").is_none());
}

#[test]
fn debug_formatter() {
    let it = example_instruction_table();
    let code = example_code();

    let actual = code.render(&it);
    let expected = "@0 = 123
@1 = 456

.main:
\tnoop
\tpush @0
\tpush @1

.some_function:
\tpop
";
    assert_eq!(actual, expected);
}

#[test]
fn code_to_byte_code() {
    let code = example_code();
    let mut actual: Vec<u8> = vec![];
    code.to_byte_code(&mut actual);
    assert_eq!(&actual[..], &EXAMPLE_BYTES[..]);
}

#[test]
fn code_from_byte_code() {
    let (code, rest): (Code<Num>, &[u8]) = Code::from_byte_code(&EXAMPLE_BYTES[..]).unwrap();
    assert!(rest.is_empty());
    assert_eq!(code.code(), [0, 1, 0, 1, 1, 2]);
    assert_eq!(code.data(), [Num(123), Num(456)]);
    assert_eq!(
        code.symbols(),
        [
            (0 as usize, "noop".to_string()),
            (1 as usize, "push".to_string()),
            (2 as usize, "pop".to_string()),
        ]
    );
    assert_eq!(
        code.labels(),
        [(0 as usize, "main".to_string()), (5 as usize, "some_function".to_string())]
    );
}

#[test]
fn codec_round_trip() {
    let code = example_code();
    let mut bytes: Vec<u8> = vec![];
    code.to_byte_code(&mut bytes);
    let (back, rest): (Code<Num>, &[u8]) = Code::from_byte_code(&bytes[..]).unwrap();
    assert!(rest.is_empty());
    assert_eq!(back.code(), code.code());
    assert_eq!(back.data(), code.data());
    assert_eq!(back.symbols(), code.symbols());
    assert_eq!(back.labels(), code.labels());
}

#[test]
fn truncated_stream_is_a_run_time_fault() {
    // A hand-written program whose stream holds a one-operand instruction
    // but no operand slot after it.
    let bytes: [u8; 37] = [
        132, 164, 99, 111, 100, 101, 145, 1, 164, 100, 97, 116, 97, 144, 167, 115, 121, 109, 98,
        111, 108, 115, 146, 1, 164, 112, 117, 115, 104, 166, 108, 97, 98, 101, 108, 115, 144,
    ];
    let (code, rest): (Code<Num>, &[u8]) = Code::from_byte_code(&bytes[..]).unwrap();
    assert!(rest.is_empty());
    assert_eq!(code.code(), [1]);
    let it = example_instruction_table();
    let constants: MutableTable<Num> = MutableTable::new();
    let machine = Machine::new(code, &constants, &it);
    assert_eq!(Machine::run(machine).err(), Some(MachineError::TruncatedStream));
}

#[test]
fn decode_rejects_corrupt_input() {
    let garbage: [u8; 4] = [0x99, 0x00, 0x01, 0x02];
    assert!(matches!(
        Code::<Num>::from_byte_code(&garbage[..]),
        Err(CodecError::Format)
    ));
    let mut wrong_tag: Vec<u8> = EXAMPLE_BYTES.to_vec();
    wrong_tag[1] = 0xa4;
    wrong_tag[2] = b'k';
    assert!(Code::<Num>::from_byte_code(&wrong_tag[..]).is_err());
}
