use crate::errors::WgseUtilsError;
use vstd::arithmetic::div_mod::lemma_div_is_ordered;
use vstd::arithmetic::div_mod::lemma_fundamental_div_mod;
use vstd::arithmetic::div_mod::lemma_fundamental_div_mod_converse;
use vstd::arithmetic::power2::lemma2_to64;
use vstd::arithmetic::power2::lemma2_to64_rest;
use vstd::arithmetic::power2::lemma_pow2_adds;
use vstd::arithmetic::power2::pow2;
use vstd::prelude::*;

verus! {

/// The `n`-byte little-endian byte string of `v`, least significant byte
/// first.
pub open spec fn le_bytes(v: int, n: nat) -> Seq<u8>
    decreases n,
{
    if n == 0 {
        Seq::empty()
    } else {
        seq![(v % 256) as u8] + le_bytes(v / 256, (n - 1) as nat)
    }
}

/// The unsigned value of a little-endian byte string.
pub open spec fn le_value(s: Seq<u8>) -> int
    decreases s.len(),
{
    if s.len() == 0 {
        0
    } else {
        s[0] + 256 * le_value(s.skip(1))
    }
}

/// A little-endian byte string is always `n` bytes long.
pub proof fn lemma_le_bytes_len(v: int, n: nat)
    ensures
        le_bytes(v, n).len() == n,
    decreases n,
{
    if n > 0 {
        lemma_le_bytes_len(v / 256, (n - 1) as nat);
    }
}

/// The value of a byte string fits in eight bits per byte.
pub proof fn lemma_le_value_bound(s: Seq<u8>)
    ensures
        0 <= le_value(s) < pow2((8 * s.len()) as nat),
    decreases s.len(),
{
    lemma2_to64();
    if s.len() == 0 {
    } else {
        lemma_le_value_bound(s.skip(1));
        lemma_pow2_adds(8, (8 * (s.len() - 1)) as nat);
    }
}

/// Round trip: the value of the `n`-byte string of `v` is `v` again,
/// whenever `v` fits in `n` bytes.
pub proof fn lemma_le_round_trip(v: int, n: nat)
    requires
        0 <= v < pow2((8 * n) as nat),
    ensures
        le_value(le_bytes(v, n)) == v,
    decreases n,
{
    lemma2_to64();
    if n == 0 {
    } else {
        let p = pow2((8 * (n - 1)) as nat) as int;
        lemma_pow2_adds(8, (8 * (n - 1)) as nat);
        lemma_fundamental_div_mod(v, 256);
        lemma_div_is_ordered(v, 256 * p - 1, 256);
        lemma_fundamental_div_mod_converse(256 * p - 1, 256, p - 1, 255);
        lemma_le_round_trip(v / 256, (n - 1) as nat);
        assert(le_bytes(v, n).skip(1) =~= le_bytes(v / 256, (n - 1) as nat));
    }
}

/// Appends the eight-byte little-endian form of `v` to `out`.
pub fn write_le64(v: u64, out: &mut Vec<u8>)
    ensures
        final(out)@ == old(out)@ + le_bytes(v as int, 8),
{
    let ghost entry = out@;
    let x0: u64 = v;
    out.push((x0 % 256) as u8);
    let x1: u64 = x0 / 256;
    out.push((x1 % 256) as u8);
    let x2: u64 = x1 / 256;
    out.push((x2 % 256) as u8);
    let x3: u64 = x2 / 256;
    out.push((x3 % 256) as u8);
    let x4: u64 = x3 / 256;
    out.push((x4 % 256) as u8);
    let x5: u64 = x4 / 256;
    out.push((x5 % 256) as u8);
    let x6: u64 = x5 / 256;
    out.push((x6 % 256) as u8);
    let x7: u64 = x6 / 256;
    out.push((x7 % 256) as u8);
    proof {
        reveal_with_fuel(le_bytes, 9);
        assert(out@ =~= entry + le_bytes(v as int, 8));
    }
}

/// Reads an eight-byte little-endian value from `data` starting at `pos`;
/// a shorter remainder is a truncated stream.
pub fn read_le64(data: &Vec<u8>, pos: usize) -> (r: Result<(u64, usize), WgseUtilsError>)
    requires
        pos <= data@.len(),
    ensures
        match r {
            Ok((v, n)) => {
                &&& n == 8
                &&& pos + 8 <= data@.len()
                &&& v as int == le_value(data@.skip(pos as int).take(8))
            },
            Err(e) => e == WgseUtilsError::IoFailure && data@.len() < pos + 8,
        },
{
    if data.len() - pos < 8 {
        Err(WgseUtilsError::IoFailure)
    } else {
        let mut acc: u64 = data[pos + 7] as u64;
        acc = acc * 256 + (data[pos + 6] as u64);
        acc = acc * 256 + (data[pos + 5] as u64);
        acc = acc * 256 + (data[pos + 4] as u64);
        acc = acc * 256 + (data[pos + 3] as u64);
        acc = acc * 256 + (data[pos + 2] as u64);
        acc = acc * 256 + (data[pos + 1] as u64);
        acc = acc * 256 + (data[pos] as u64);
        proof {
            let s = data@.skip(pos as int).take(8);
            assert(s.skip(1) =~= data@.skip(pos as int + 1).take(7));
            assert(s.skip(1).skip(1) =~= data@.skip(pos as int + 2).take(6));
            assert(s.skip(1).skip(1).skip(1) =~= data@.skip(pos as int + 3).take(5));
            assert(s.skip(1).skip(1).skip(1).skip(1) =~= data@.skip(pos as int + 4).take(4));
            assert(s.skip(1).skip(1).skip(1).skip(1).skip(1) =~= data@.skip(
                pos as int + 5,
            ).take(3));
            assert(s.skip(1).skip(1).skip(1).skip(1).skip(1).skip(1) =~= data@.skip(
                pos as int + 6,
            ).take(2));
            assert(s.skip(1).skip(1).skip(1).skip(1).skip(1).skip(1).skip(1) =~= data@.skip(
                pos as int + 7,
            ).take(1));
            assert(s.skip(1).skip(1).skip(1).skip(1).skip(1).skip(1).skip(1).skip(1)
                =~= Seq::<u8>::empty());
            reveal_with_fuel(le_value, 10);
            assert(acc as int == le_value(s));
        }
        Ok((acc, 8))
    }
}

/// Round trip through a stream: the head of an encoding followed by
/// anything decodes to the encoded value.
pub proof fn lemma_le64_round_trip(v: int, rest: Seq<u8>)
    requires
        0 <= v < pow2(64),
    ensures
        le_bytes(v, 8).len() == 8,
        le_value((le_bytes(v, 8) + rest).take(8)) == v,
{
    lemma_le_bytes_len(v, 8);
    lemma_le_round_trip(v, 8);
    assert((le_bytes(v, 8) + rest).take(8) =~= le_bytes(v, 8));
}

} // verus!
