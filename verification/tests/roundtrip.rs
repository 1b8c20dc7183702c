use wgse_codec::codec::Codec;
use wgse_codec::errors::WgseUtilsError;
use wgse_codec::instruction::Argument;
use wgse_codec::values::Address;
use wgse_codec::values::Integer;
use wgse_codec::values::Real;
use wgse_codec::values::Value;
use wgse_codec::wrapper::BinVec;
use wgse_codec::wrapper::Opcode;
use wgse_codec::wrapper::Register;

fn round_trip<T: Codec + PartialEq + core::fmt::Debug>(v: T) {
    let mut bytes: Vec<u8> = Vec::new();
    v.encode(&mut bytes);
    let (back, used) = T::decode(&bytes, 0).expect("decoding an encoding must succeed");
    assert_eq!(back, v);
    assert_eq!(used, bytes.len());
}

#[test]
fn integer_round_trips() {
    for v in [
        0i64,
        1,
        -1,
        63,
        64,
        -64,
        -65,
        127,
        128,
        -300,
        300,
        0x7FFF_FFFF,
        -0x8000_0000,
        i64::MAX,
        i64::MIN,
    ] {
        round_trip(Integer(v));
    }
}

#[test]
fn integer_known_bytes() {
    let cases: [(i64, &[u8]); 6] = [
        (0, &[0x00]),
        (-1, &[0x7F]),
        (63, &[0x3F]),
        (-64, &[0x40]),
        (64, &[0xC0, 0x00]),
        (-300, &[0xD4, 0x7D]),
    ];
    for (v, expected) in cases {
        let mut bytes: Vec<u8> = Vec::new();
        Integer(v).encode(&mut bytes);
        assert_eq!(bytes.as_slice(), expected);
    }
}

#[test]
fn real_round_trips_every_bit_pattern_shape() {
    for bits in [
        0u64,
        2.5f64.to_bits(),
        (-2.5f64).to_bits(),
        f64::NAN.to_bits(),
        f64::INFINITY.to_bits(),
        f64::NEG_INFINITY.to_bits(),
        (-0.0f64).to_bits(),
        u64::MAX,
    ] {
        round_trip(Real::from_bits(bits));
    }
}

#[test]
fn real_is_eight_little_endian_bytes() {
    let mut bytes: Vec<u8> = Vec::new();
    Real::from_bits(2.5f64.to_bits()).encode(&mut bytes);
    assert_eq!(bytes, 2.5f64.to_bits().to_le_bytes().to_vec());
}

#[test]
fn address_round_trips() {
    for raw in [1u32, 2, 0x7F, 0x80, 0xFFFF_FFFF] {
        let a = Address::new(raw).expect("non-zero addresses are valid");
        round_trip(a);
        assert_eq!(a.raw(), raw);
    }
}

#[test]
fn value_round_trips() {
    round_trip(Value::Integer(Integer(-300)));
    round_trip(Value::Real(Real::from_bits(2.5f64.to_bits())));
    round_trip(Value::Address(Address::new(0xDEAD_BEEF).unwrap()));
}

#[test]
fn value_discriminants_follow_declaration_order() {
    let mut bytes: Vec<u8> = Vec::new();
    Value::Integer(Integer(0)).encode(&mut bytes);
    assert_eq!(bytes[0], 0);
    bytes.clear();
    Value::Real(Real::from_bits(0)).encode(&mut bytes);
    assert_eq!(bytes[0], 1);
    bytes.clear();
    Value::Address(Address::new(1).unwrap()).encode(&mut bytes);
    assert_eq!(bytes[0], 2);
}

#[test]
fn opcode_and_register_round_trip() {
    round_trip(Opcode(0xAB));
    round_trip(Register(0x0123_4567_89AB_CDEF));
}

#[test]
fn argument_round_trips_as_wire_element() {
    let mut arg = Argument::new();
    arg.set(Integer(-300)).unwrap();
    round_trip(arg);
}

#[test]
fn binvec_round_trips_preserving_order() {
    let bv = BinVec { buff: vec![Integer(1), Integer(-1), Integer(300)] };
    let mut bytes: Vec<u8> = Vec::new();
    bv.encode(&mut bytes);
    let (back, used) = BinVec::<Integer>::decode(&bytes, 0).unwrap();
    assert_eq!(back.buff, vec![Integer(1), Integer(-1), Integer(300)]);
    assert_eq!(used, bytes.len());
}

#[test]
fn decode_reports_position_past_consumed_prefix() {
    let mut bytes: Vec<u8> = vec![0xEE, 0xEE];
    Integer(-300).encode(&mut bytes);
    let (back, used) = Integer::decode(&bytes, 2).unwrap();
    assert_eq!(back, Integer(-300));
    assert_eq!(used, 2);
}

#[test]
fn truncated_integer_is_io_failure() {
    // a lone continuation byte promises more input than there is
    let bytes: Vec<u8> = vec![0x80];
    assert_eq!(Integer::decode(&bytes, 0), Err(WgseUtilsError::IoFailure));
    assert_eq!(Integer::decode(&Vec::new(), 0), Err(WgseUtilsError::IoFailure));
}

#[test]
fn oversized_integer_is_overflow() {
    // eleven bytes of continuation can not fit in 64 bits
    let bytes: Vec<u8> = vec![0x80, 0x80, 0x80, 0x80, 0x80, 0x80, 0x80, 0x80, 0x80, 0x80, 0x00];
    assert_eq!(Integer::decode(&bytes, 0), Err(WgseUtilsError::Overflow));
    // ten bytes whose last carries more than the top bit of a 64-bit value
    let bytes: Vec<u8> = vec![0x80, 0x80, 0x80, 0x80, 0x80, 0x80, 0x80, 0x80, 0x80, 0x01];
    assert_eq!(Integer::decode(&bytes, 0), Err(WgseUtilsError::Overflow));
}
