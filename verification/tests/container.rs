use wgse_codec::codec::Codec;
use wgse_codec::errors::WgseUtilsError;
use wgse_codec::le64::write_le64;
use wgse_codec::values::Integer;
use wgse_codec::wrapper::BinVec;

#[test]
fn short_run_behind_the_count_is_io_failure() {
    // the prefix claims three elements but only two follow
    let mut bytes: Vec<u8> = Vec::new();
    write_le64(3, &mut bytes);
    Integer(10).encode(&mut bytes);
    Integer(-10).encode(&mut bytes);
    assert_eq!(BinVec::<Integer>::decode(&bytes, 0), Err(WgseUtilsError::IoFailure));
}

#[test]
fn truncated_count_prefix_is_io_failure() {
    let bytes: Vec<u8> = vec![2, 0, 0];
    assert_eq!(BinVec::<Integer>::decode(&bytes, 0), Err(WgseUtilsError::IoFailure));
}

#[test]
fn empty_run_round_trips() {
    let bv: BinVec<Integer> = BinVec { buff: Vec::new() };
    let mut bytes: Vec<u8> = Vec::new();
    bv.encode(&mut bytes);
    assert_eq!(bytes, vec![0u8; 8]);
    let (back, used) = BinVec::<Integer>::decode(&bytes, 0).unwrap();
    assert!(back.buff.is_empty());
    assert_eq!(used, 8);
}

#[test]
fn exactly_the_announced_count_is_consumed() {
    let mut bytes: Vec<u8> = Vec::new();
    write_le64(2, &mut bytes);
    Integer(1).encode(&mut bytes);
    Integer(2).encode(&mut bytes);
    let trailing_from = bytes.len();
    Integer(3).encode(&mut bytes);
    let (back, used) = BinVec::<Integer>::decode(&bytes, 0).unwrap();
    assert_eq!(back.buff, vec![Integer(1), Integer(2)]);
    assert_eq!(used, trailing_from);
}

#[test]
fn a_malformed_element_fails_the_whole_run() {
    let mut bytes: Vec<u8> = Vec::new();
    write_le64(2, &mut bytes);
    Integer(1).encode(&mut bytes);
    // eleven continuation bytes make the second element overflow
    bytes.extend_from_slice(&[0x80; 10]);
    bytes.push(0x00);
    assert_eq!(BinVec::<Integer>::decode(&bytes, 0), Err(WgseUtilsError::Overflow));
}

#[test]
fn container_converts_from_a_plain_vector() {
    let bv: BinVec<Integer> = BinVec::from(vec![Integer(5)]);
    assert_eq!(bv.buff, vec![Integer(5)]);
    let v: Vec<Integer> = bv.into_vec();
    assert_eq!(v, vec![Integer(5)]);
}
