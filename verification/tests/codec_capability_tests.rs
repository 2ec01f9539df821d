use stack_vm::CodeDeserialize;
use stack_vm::CodeSerialize;
use stack_vm::CodecError;
use stack_vm::View;

#[derive(PartialEq, Debug)]
struct Operand(i64);

impl View for Operand {
    type V = i64;

    fn view(&self) -> i64 {
        self.0
    }
}

impl CodeSerialize for Operand {
    fn to_byte_code(&self, buf: &mut Vec<u8>) {
        rmp::encode::write_sint(buf, self.0).unwrap();
    }
}

impl CodeDeserialize for Operand {
    fn from_byte_code<'a>(bytes: &'a [u8]) -> Result<(Self, &'a [u8]), CodecError> {
        let mut rd = bytes;
        match rmp::decode::read_int::<i64, _>(&mut rd) {
            Ok(v) => Ok((Operand(v), rd)),
            Err(_) => Err(CodecError::Format),
        }
    }
}

#[test]
fn code_serialize_to_byte_code() {
    let op = Operand(13);
    let mut buf: Vec<u8> = vec![];
    op.to_byte_code(&mut buf);
    assert_eq!(&buf[..], [0xd]);
}

#[test]
fn code_deserialize_from_byte_code() {
    let bytecode = [0xd];
    let (op, rest) = Operand::from_byte_code(&bytecode[..]).unwrap();
    assert_eq!(Operand(13), op);
    assert!(rest.is_empty());
}
