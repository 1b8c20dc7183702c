use crate::errors::WgseUtilsError;
use vstd::arithmetic::div_mod::lemma_div_is_ordered;
use vstd::arithmetic::div_mod::lemma_fundamental_div_mod;
use vstd::arithmetic::div_mod::lemma_fundamental_div_mod_converse;
use vstd::arithmetic::power2::lemma2_to64;
use vstd::arithmetic::power2::lemma2_to64_rest;
use vstd::arithmetic::power2::lemma_pow2_adds;
use vstd::arithmetic::power2::lemma_pow2_strictly_increases;
use vstd::arithmetic::power2::pow2;
use vstd::prelude::*;

verus! {

/// How far a signed value is from the two fixed points of an arithmetic
/// shift, `0` and `-1`; it shrinks every time seven bits are peeled off.
pub open spec fn sleb128_measure(v: int) -> int {
    if v >= 0 {
        v
    } else {
        -1 - v
    }
}

/// The canonical signed-LEB128 byte string for `v`: seven payload bits per
/// byte, the high bit marking continuation, and a final byte whose bit 0x40
/// carries the sign. Division and remainder are Euclidean, so `v / 128` is
/// the arithmetic shift of `v` by seven bits.
pub open spec fn sleb128_encoding(v: int) -> Seq<u8>
    decreases sleb128_measure(v) via sleb128_encoding_decreases
{
    if -64 <= v < 64 {
        seq![(v % 128) as u8]
    } else {
        seq![((v % 128) + 128) as u8] + sleb128_encoding(v / 128)
    }
}

#[via_fn]
proof fn sleb128_encoding_decreases(v: int) {
    if !(-64 <= v < 64) {
        lemma_fundamental_div_mod(v, 128);
    }
}

/// What reading one signed-LEB128 value from the head of `s` yields, with
/// `depth` bytes of the encoding already consumed. The value of a byte
/// string is its low seven bits plus 128 times the value of the remainder,
/// and a final byte is read as a signed seven-bit quantity. The tenth byte
/// of an encoding may only contribute `0` or `-1`, so that every accepted
/// value fits in 64 bits; anything else is an overflow.
pub open spec fn sleb128_decode_at(s: Seq<u8>, depth: nat) -> Result<(int, nat), WgseUtilsError>
    decreases 9 - depth,
{
    if s.len() == 0 {
        Err(WgseUtilsError::IoFailure)
    } else {
        let b = s[0] as int;
        if b >= 128 {
            if depth >= 9 {
                Err(WgseUtilsError::Overflow)
            } else {
                match sleb128_decode_at(s.skip(1), depth + 1) {
                    Ok((v, n)) => Ok(((b - 128) + 128 * v, (n + 1) as nat)),
                    Err(e) => Err(e),
                }
            }
        } else if depth == 9 && b != 0 && b != 127 {
            Err(WgseUtilsError::Overflow)
        } else if b >= 64 {
            Ok((b - 128, 1nat))
        } else {
            Ok((b, 1nat))
        }
    }
}

/// Reading one signed-LEB128 value from the head of `s`.
pub open spec fn sleb128_decoded(s: Seq<u8>) -> Result<(int, nat), WgseUtilsError> {
    sleb128_decode_at(s, 0)
}

/// Every value accepted `depth` bytes into an encoding lies within the
/// remaining payload width, and at most `10 - depth` bytes are consumed.
/// In particular a completed decode always fits in a 64-bit signed integer.
pub proof fn lemma_sleb128_decode_bounds(s: Seq<u8>, depth: nat)
    requires
        depth <= 9,
    ensures
        sleb128_decode_at(s, depth) matches Ok((v, n)) ==> {
            &&& -pow2((63 - 7 * depth) as nat) <= v < pow2((63 - 7 * depth) as nat)
            &&& 1 <= n <= s.len()
            &&& n <= 10 - depth
        },
    decreases 9 - depth,
{
    lemma2_to64();
    lemma2_to64_rest();
    if s.len() == 0 {
    } else {
        let b = s[0] as int;
        if b >= 128 && depth < 9 {
            lemma_sleb128_decode_bounds(s.skip(1), depth + 1);
            lemma_pow2_adds(7, (56 - 7 * depth) as nat);
            assert(pow2((63 - 7 * depth) as nat) == 128 * pow2((56 - 7 * depth) as nat));
        } else if b < 128 && !(depth == 9 && b != 0 && b != 127) {
            if depth < 9 {
                if 63 - 7 * depth > 6 {
                    lemma_pow2_strictly_increases(6, (63 - 7 * depth) as nat);
                }
            }
        }
    }
}

/// Round trip: decoding an encoding, with any bytes after it, yields the
/// encoded value back and consumes exactly the encoding.
pub proof fn lemma_sleb128_round_trip_at(v: int, rest: Seq<u8>, depth: nat)
    requires
        depth <= 9,
        -pow2((63 - 7 * depth) as nat) <= v < pow2((63 - 7 * depth) as nat),
    ensures
        sleb128_decode_at(sleb128_encoding(v) + rest, depth)
            == Ok::<(int, nat), WgseUtilsError>((v, sleb128_encoding(v).len() as nat)),
    decreases 9 - depth,
{
    lemma2_to64();
    lemma2_to64_rest();
    let enc = sleb128_encoding(v);
    if -64 <= v < 64 {
        if v >= 0 {
            lemma_fundamental_div_mod_converse(v, 128, 0, v);
        } else {
            lemma_fundamental_div_mod_converse(v, 128, -1, v + 128);
        }
        assert((enc + rest)[0] == (v % 128) as u8);
    } else {
        let p = pow2((56 - 7 * depth) as nat) as int;
        lemma_pow2_adds(7, (56 - 7 * depth) as nat);
        lemma_fundamental_div_mod(v, 128);
        let tail = sleb128_encoding(v / 128);
        // the shifted value lies within the payload width one byte deeper
        assert((-128) * p <= v < 128 * p);
        lemma_div_is_ordered((-128) * p, v, 128);
        lemma_fundamental_div_mod_converse((-128) * p, 128, -p, 0);
        lemma_div_is_ordered(v, 128 * p - 1, 128);
        lemma_fundamental_div_mod_converse(128 * p - 1, 128, p - 1, 127);
        assert(-p <= v / 128 < p);
        lemma_sleb128_round_trip_at(v / 128, rest, depth + 1);
        assert((enc + rest).skip(1) =~= tail + rest);
        assert((enc + rest)[0] == ((v % 128) + 128) as u8);
    }
}

/// Round trip at the head of a stream, for every value of a 64-bit signed
/// integer.
pub proof fn lemma_sleb128_round_trip(v: int, rest: Seq<u8>)
    requires
        i64::MIN <= v <= i64::MAX,
    ensures
        sleb128_decoded(sleb128_encoding(v) + rest)
            == Ok::<(int, nat), WgseUtilsError>((v, sleb128_encoding(v).len() as nat)),
{
    lemma2_to64();
    lemma2_to64_rest();
    lemma_sleb128_round_trip_at(v, rest, 0);
}

/// Appends the signed-LEB128 encoding of `v` to `out`.
pub fn write_sleb128(v: i64, out: &mut Vec<u8>)
    ensures
        final(out)@ == old(out)@ + sleb128_encoding(v as int),
    decreases sleb128_measure(v as int),
{
    let ghost entry = out@;
    if -64 <= v && v < 64 {
        let byte: u8 = if v >= 0 {
            proof {
                lemma_fundamental_div_mod_converse(v as int, 128, 0, v as int);
            }
            v as u8
        } else {
            proof {
                lemma_fundamental_div_mod_converse(v as int, 128, -1, v as int + 128);
            }
            (v + 128) as u8
        };
        out.push(byte);
        assert(out@ =~= entry + sleb128_encoding(v as int));
    } else {
        let qr: (i64, u8) = if v >= 0 {
            (((v as u64) / 128) as i64, ((v as u64) % 128) as u8)
        } else {
            let y: u64 = (-(v + 1)) as u64;
            proof {
                lemma_fundamental_div_mod(y as int, 128);
                assert(y / 128 < 0x8000_0000_0000_0000u64) by {
                    if y as int / 128 >= 0x8000_0000_0000_0000 {
                        assert(128 * (y as int / 128) >= 128 * 0x8000_0000_0000_0000int);
                    }
                }
                lemma_fundamental_div_mod_converse(
                    v as int,
                    128,
                    -1 - (y as int) / 128,
                    127 - (y as int) % 128,
                );
            }
            (-1 - ((y / 128) as i64), 127 - ((y % 128) as u8))
        };
        let q: i64 = qr.0;
        let r: u8 = qr.1;
        assert(q as int == v as int / 128 && r as int == v as int % 128);
        out.push(r + 128);
        proof {
            lemma_fundamental_div_mod(v as int, 128);
        }
        write_sleb128(q, out);
        assert(out@ =~= entry + sleb128_encoding(v as int));
    }
}

/// Reads one signed-LEB128 value from `data` starting at `pos`; reports a
/// truncated stream and a value wider than 64 bits as distinct failures.
pub fn read_sleb128(data: &Vec<u8>, pos: usize) -> (r: Result<(i64, usize), WgseUtilsError>)
    requires
        pos <= data@.len(),
    ensures
        match r {
            Ok((v, n)) => {
                &&& sleb128_decoded(data@.skip(pos as int))
                    == Ok::<(int, nat), WgseUtilsError>((v as int, n as nat))
                &&& 1 <= n <= 10
                &&& pos + n <= data@.len()
            },
            Err(e) => sleb128_decoded(data@.skip(pos as int))
                == Err::<(int, nat), WgseUtilsError>(e),
        },
{
    read_sleb128_at(data, pos, 0)
}

/// Reads the remainder of a signed-LEB128 value whose first `depth` bytes
/// are already consumed.
fn read_sleb128_at(data: &Vec<u8>, pos: usize, depth: u8) -> (r: Result<
    (i64, usize),
    WgseUtilsError,
>)
    requires
        pos <= data@.len(),
        depth <= 9,
    ensures
        match r {
            Ok((v, n)) => {
                &&& sleb128_decode_at(data@.skip(pos as int), depth as nat)
                    == Ok::<(int, nat), WgseUtilsError>((v as int, n as nat))
                &&& 1 <= n <= 10 - depth
                &&& pos + n <= data@.len()
            },
            Err(e) => sleb128_decode_at(data@.skip(pos as int), depth as nat)
                == Err::<(int, nat), WgseUtilsError>(e),
        },
    decreases 9 - depth,
{
    if pos == data.len() {
        Err(WgseUtilsError::IoFailure)
    } else {
        let b: u8 = data[pos];
        assert(data@.skip(pos as int)[0] == b);
        if b >= 128 {
            if depth >= 9 {
                Err(WgseUtilsError::Overflow)
            } else {
                assert(data@.skip(pos as int).skip(1) =~= data@.skip(pos as int + 1));
                match read_sleb128_at(data, pos + 1, depth + 1) {
                    Ok((v, n)) => {
                        proof {
                            lemma2_to64();
                            lemma2_to64_rest();
                            lemma_sleb128_decode_bounds(
                                data@.skip(pos as int + 1),
                                (depth + 1) as nat,
                            );
                            if 63 - 7 * (depth as int + 1) < 56 {
                                lemma_pow2_strictly_increases(
                                    (63 - 7 * (depth as int + 1)) as nat,
                                    56,
                                );
                            }
                        }
                        Ok((((b as i64) - 128) + 128 * v, n + 1))
                    },
                    Err(e) => Err(e),
                }
            }
        } else if depth == 9 && b != 0 && b != 127 {
            Err(WgseUtilsError::Overflow)
        } else if b >= 64 {
            Ok(((b as i64) - 128, 1))
        } else {
            Ok((b as i64, 1))
        }
    }
}

} // verus!
