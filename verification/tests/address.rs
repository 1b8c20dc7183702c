use wgse_codec::codec::Codec;
use wgse_codec::errors::WgseUtilsError;
use wgse_codec::sleb128::write_sleb128;
use wgse_codec::values::Address;

fn sleb_of(v: i64) -> Vec<u8> {
    let mut bytes: Vec<u8> = Vec::new();
    write_sleb128(v, &mut bytes);
    bytes
}

#[test]
fn address_rejects_zero() {
    let bytes = sleb_of(0);
    assert_eq!(Address::decode(&bytes, 0), Err(WgseUtilsError::InvalidRange(0)));
}

#[test]
fn address_rejects_minus_one() {
    let bytes = sleb_of(-1);
    assert_eq!(Address::decode(&bytes, 0), Err(WgseUtilsError::InvalidRange(-1)));
}

#[test]
fn address_rejects_past_32_bits() {
    let bytes = sleb_of(0x1_0000_0000);
    assert_eq!(Address::decode(&bytes, 0), Err(WgseUtilsError::InvalidRange(0x1_0000_0000)));
}

#[test]
fn address_accepts_one() {
    let bytes = sleb_of(1);
    let (a, used) = Address::decode(&bytes, 0).unwrap();
    assert_eq!(a.raw(), 1);
    assert_eq!(used, bytes.len());
}

#[test]
fn address_accepts_full_32_bits() {
    let bytes = sleb_of(0xFFFF_FFFF);
    let (a, used) = Address::decode(&bytes, 0).unwrap();
    assert_eq!(a.raw(), 0xFFFF_FFFF);
    assert_eq!(used, bytes.len());
}

#[test]
fn address_construction_rejects_zero() {
    assert_eq!(Address::new(0), Err(WgseUtilsError::InvalidRange(0)));
    assert!(Address::new(7).is_ok());
}

#[test]
fn address_shares_the_integer_wire_format() {
    let a = Address::new(300).unwrap();
    let mut bytes: Vec<u8> = Vec::new();
    a.encode(&mut bytes);
    assert_eq!(bytes, sleb_of(300));
}

#[test]
fn truncated_address_is_io_failure() {
    let bytes: Vec<u8> = vec![0x80];
    assert_eq!(Address::decode(&bytes, 0), Err(WgseUtilsError::IoFailure));
}
