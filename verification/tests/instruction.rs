use wgse_codec::codec::Codec;
use wgse_codec::instruction::Argument;
use wgse_codec::instruction::Instruction;
use wgse_codec::values::Address;
use wgse_codec::values::Integer;
use wgse_codec::values::Real;
use wgse_codec::values::Value;
use wgse_codec::wrapper::BinVec;
use wgse_codec::wrapper::Opcode;
use wgse_codec::wrapper::Register;

#[test]
fn set_then_get_returns_the_original_integer() {
    let mut arg = Argument::new();
    arg.set(Integer(-300)).unwrap();
    assert_eq!(arg.get::<Integer>().unwrap(), Integer(-300));
}

#[test]
fn set_then_get_returns_the_original_real() {
    let mut arg = Argument::new();
    arg.set(Real::from_bits(2.5f64.to_bits())).unwrap();
    assert_eq!(f64::from_bits(arg.get::<Real>().unwrap().bits()), 2.5);
}

#[test]
fn set_then_get_returns_the_original_address() {
    let mut arg = Argument::new();
    arg.set(Address::new(0xFFFF_FFFF).unwrap()).unwrap();
    assert_eq!(arg.get::<Address>().unwrap().raw(), 0xFFFF_FFFF);
}

#[test]
fn set_then_get_returns_the_original_value() {
    let mut arg = Argument::new();
    arg.set(Value::Integer(Integer(9))).unwrap();
    assert_eq!(arg.get::<Value>().unwrap(), Value::Integer(Integer(9)));
}

#[test]
fn set_then_get_returns_the_original_register_and_opcode() {
    let mut arg = Argument::new();
    arg.set(Register(0xFEED_F00D_DEAD_BEEF)).unwrap();
    assert_eq!(arg.get::<Register>().unwrap(), Register(0xFEED_F00D_DEAD_BEEF));
    arg.set(Opcode(0x42)).unwrap();
    assert_eq!(arg.get::<Opcode>().unwrap(), Opcode(0x42));
}

#[test]
fn set_replaces_prior_contents() {
    let mut arg = Argument::new();
    arg.set(Integer(i64::MIN)).unwrap();
    arg.set(Integer(5)).unwrap();
    assert_eq!(arg.get::<Integer>().unwrap(), Integer(5));
    // a one-byte integer leaves a one-byte buffer behind
    assert_eq!(arg.0.buff, vec![0x05]);
}

#[test]
fn instruction_with_two_arguments_round_trips() {
    let mut first = Argument::new();
    first.set(Integer(-300)).unwrap();
    let mut second = Argument::new();
    second.set(Real::from_bits(2.5f64.to_bits())).unwrap();
    let ins = Instruction {
        opcode: Opcode(0x01),
        arguments: BinVec { buff: vec![first, second] },
    };

    let mut bytes: Vec<u8> = Vec::new();
    ins.encode(&mut bytes);
    let (back, used) = Instruction::decode(&bytes, 0).unwrap();

    assert_eq!(used, bytes.len());
    assert_eq!(back.opcode, Opcode(0x01));
    assert_eq!(back.arguments.buff.len(), 2);
    assert_eq!(back.arguments.buff[0].get::<Integer>().unwrap(), Integer(-300));
    assert_eq!(f64::from_bits(back.arguments.buff[1].get::<Real>().unwrap().bits()), 2.5);
    assert_eq!(back, ins);
}

#[test]
fn zero_length_instruction_round_trips() {
    let ins = Instruction { opcode: Opcode(0x00), arguments: BinVec { buff: Vec::new() } };
    let mut bytes: Vec<u8> = Vec::new();
    ins.encode(&mut bytes);

    // one opcode byte, then the count prefix, which is exactly zero
    assert_eq!(bytes.len(), 9);
    assert_eq!(bytes[0], 0x00);
    assert_eq!(&bytes[1..9], &[0u8; 8]);

    let (back, used) = Instruction::decode(&bytes, 0).unwrap();
    assert_eq!(used, 9);
    assert_eq!(back, ins);
}

#[test]
fn instruction_preserves_argument_order() {
    let mut a = Argument::new();
    a.set(Integer(1)).unwrap();
    let mut b = Argument::new();
    b.set(Integer(2)).unwrap();
    let ins = Instruction { opcode: Opcode(7), arguments: BinVec { buff: vec![a, b] } };
    let mut bytes: Vec<u8> = Vec::new();
    ins.encode(&mut bytes);
    let (back, _) = Instruction::decode(&bytes, 0).unwrap();
    assert_eq!(back.arguments.buff[0].get::<Integer>().unwrap(), Integer(1));
    assert_eq!(back.arguments.buff[1].get::<Integer>().unwrap(), Integer(2));
}
