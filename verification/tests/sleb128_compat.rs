//! Cross-checks of the crate's signed-LEB128 codec against the `leb128`
//! crate, whose format this library speaks.

use wgse_codec::sleb128::read_sleb128;
use wgse_codec::sleb128::write_sleb128;

fn sample_values() -> Vec<i64> {
    let mut values: Vec<i64> = (-1000..1000).collect();
    for shift in 0..63 {
        let p: i64 = 1 << shift;
        for v in [p - 1, p, p + 1, -p - 1, -p, -p + 1] {
            values.push(v);
        }
    }
    values.push(i64::MAX);
    values.push(i64::MIN);
    values
}

#[test]
fn encoding_matches_the_reference_writer() {
    for v in sample_values() {
        let mut ours: Vec<u8> = Vec::new();
        write_sleb128(v, &mut ours);

        let mut theirs: Vec<u8> = Vec::new();
        let written = leb128::write::signed(&mut theirs, v).unwrap();

        assert_eq!(ours, theirs, "encodings differ for {}", v);
        assert_eq!(ours.len(), written);
    }
}

#[test]
fn decoding_matches_the_reference_reader() {
    for v in sample_values() {
        let mut bytes: Vec<u8> = Vec::new();
        write_sleb128(v, &mut bytes);
        // a trailing byte must be left untouched by both readers
        bytes.push(0xEE);

        let (ours, used) = read_sleb128(&bytes, 0).unwrap();

        let mut readable = &bytes[..];
        let theirs = leb128::read::signed(&mut readable).unwrap();

        assert_eq!(ours, v);
        assert_eq!(ours, theirs);
        assert_eq!(bytes.len() - used, readable.len());
    }
}

#[test]
fn redundant_encodings_decode_alike() {
    // non-minimal but in-range encodings, as another writer might emit them
    let streams: [&[u8]; 4] = [
        &[0x80, 0x00],
        &[0xFF, 0x7F],
        &[0x80, 0x80, 0x80, 0x80, 0x80, 0x80, 0x80, 0x80, 0x80, 0x00],
        &[0xFF, 0xFF, 0xFF, 0xFF, 0xFF, 0xFF, 0xFF, 0xFF, 0xFF, 0x7F],
    ];
    for raw in streams {
        let bytes: Vec<u8> = raw.to_vec();
        let (ours, used) = read_sleb128(&bytes, 0).unwrap();
        let mut readable = &bytes[..];
        let theirs = leb128::read::signed(&mut readable).unwrap();
        assert_eq!(ours, theirs);
        assert_eq!(used, bytes.len());
    }
}
