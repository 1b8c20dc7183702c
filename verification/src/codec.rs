use crate::errors::WgseUtilsError;
use vstd::prelude::*;

verus! {

/// Byte order requested from the numeric codec primitives. The wire format
/// itself is little-endian throughout; asking for big-endian is an error
/// reported before the stream is touched.
#[derive(Clone, Copy, Debug, PartialEq, Eq, Structural)]
pub enum Endianness {
    Little,
    Big,
}

/// The little-endian binary codec shared by every wire element.
///
/// Each codeable type describes itself twice: mathematically, through the
/// spec functions `wf`, `encoded` and `decoded` over its abstract view, and
/// executably, through `encode` and `decode`, whose contracts tie them to
/// the mathematical description. The two proof obligations make the
/// description coherent: decoding succeeds only on well-formed values
/// within the input, and decoding an encoding yields the encoded value
/// back, consuming exactly its bytes, whatever follows them.
pub trait Codec: View + Sized {
    /// Which abstract values are representable on the wire.
    spec fn wf(v: Self::V) -> bool;

    /// The byte string an abstract value is written as.
    spec fn encoded(v: Self::V) -> Seq<u8>;

    /// What reading one value from the head of `s` yields: the abstract
    /// value and the number of bytes consumed, or the failure.
    spec fn decoded(s: Seq<u8>) -> Result<(Self::V, nat), WgseUtilsError>;

    /// Decoding yields well-formed values, consumes at least one byte and
    /// never reads past the end of the input.
    proof fn lemma_decoded_sound(s: Seq<u8>)
        ensures
            Self::decoded(s) matches Ok((v, n)) ==> Self::wf(v) && 1 <= n <= s.len(),
    ;

    /// Round trip: decoding an encoding, with any bytes after it, yields
    /// the encoded value and consumes exactly the encoding.
    proof fn lemma_round_trip(v: Self::V, rest: Seq<u8>)
        requires
            Self::wf(v),
        ensures
            Self::decoded(Self::encoded(v) + rest) == Ok::<(Self::V, nat), WgseUtilsError>(
                (v, Self::encoded(v).len() as nat),
            ),
    ;

    /// Appends the encoding of `self` to `out`.
    fn encode(&self, out: &mut Vec<u8>)
        requires
            Self::wf(self@),
        ensures
            final(out)@ == old(out)@ + Self::encoded(self@),
    ;

    /// Reads one value from `data` starting at `pos`.
    fn decode(data: &Vec<u8>, pos: usize) -> (r: Result<(Self, usize), WgseUtilsError>)
        requires
            pos <= data@.len(),
        ensures
            match r {
                Ok(p) => {
                    &&& Self::decoded(data@.skip(pos as int)) == Ok::<
                        (Self::V, nat),
                        WgseUtilsError,
                    >((p.0@, p.1 as nat))
                    &&& Self::wf(p.0@)
                    &&& 1 <= p.1
                    &&& pos + p.1 <= data@.len()
                },
                Err(e) => Self::decoded(data@.skip(pos as int)) == Err::<
                    (Self::V, nat),
                    WgseUtilsError,
                >(e),
            },
    ;
}

/// Raw bytes are their own one-byte encoding; this lets the generic
/// length-prefixed container carry an operand's serialized form.
impl Codec for u8 {
    open spec fn wf(v: u8) -> bool {
        true
    }

    open spec fn encoded(v: u8) -> Seq<u8> {
        seq![v]
    }

    open spec fn decoded(s: Seq<u8>) -> Result<(u8, nat), WgseUtilsError> {
        if s.len() == 0 {
            Err(WgseUtilsError::IoFailure)
        } else {
            Ok((s[0], 1nat))
        }
    }

    proof fn lemma_decoded_sound(s: Seq<u8>) {
    }

    proof fn lemma_round_trip(v: u8, rest: Seq<u8>) {
        assert((Self::encoded(v) + rest)[0] == v);
    }

    fn encode(&self, out: &mut Vec<u8>) {
        out.push(*self);
        assert(out@ =~= old(out)@ + Self::encoded(self@));
    }

    fn decode(data: &Vec<u8>, pos: usize) -> (r: Result<(u8, usize), WgseUtilsError>) {
        if pos == data.len() {
            Err(WgseUtilsError::IoFailure)
        } else {
            let b: u8 = data[pos];
            assert(data@.skip(pos as int)[0] == b);
            Ok((b, 1))
        }
    }
}

} // verus!
