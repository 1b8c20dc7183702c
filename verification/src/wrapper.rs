use crate::codec::Codec;
use crate::errors::WgseUtilsError;
use crate::le64::le_bytes;
use crate::le64::le_value;
use crate::le64::lemma_le64_round_trip;
use crate::le64::lemma_le_value_bound;
use crate::le64::read_le64;
use crate::le64::write_le64;
use vstd::arithmetic::power2::lemma2_to64_rest;
use vstd::prelude::*;

verus! {

/// One instruction's operation selector, a single unsigned byte.
#[derive(Clone, Copy, Debug, Default, PartialEq, Eq, PartialOrd, Ord, Structural)]
pub struct Opcode(pub u8);

impl View for Opcode {
    type V = u8;

    open spec fn view(&self) -> u8 {
        self.0
    }
}

impl Codec for Opcode {
    open spec fn wf(v: u8) -> bool {
        true
    }

    open spec fn encoded(v: u8) -> Seq<u8> {
        seq![v]
    }

    open spec fn decoded(s: Seq<u8>) -> Result<(u8, nat), WgseUtilsError> {
        if s.len() == 0 {
            Err(WgseUtilsError::IoFailure)
        } else {
            Ok((s[0], 1nat))
        }
    }

    proof fn lemma_decoded_sound(s: Seq<u8>) {
    }

    proof fn lemma_round_trip(v: u8, rest: Seq<u8>) {
        assert((Self::encoded(v) + rest)[0] == v);
    }

    fn encode(&self, out: &mut Vec<u8>) {
        out.push(self.0);
        assert(out@ =~= old(out)@ + Self::encoded(self@));
    }

    fn decode(data: &Vec<u8>, pos: usize) -> (r: Result<(Opcode, usize), WgseUtilsError>) {
        if pos == data.len() {
            Err(WgseUtilsError::IoFailure)
        } else {
            let b: u8 = data[pos];
            assert(data@.skip(pos as int)[0] == b);
            Ok((Opcode(b), 1))
        }
    }
}

/// A 64-bit register-addressing value, reserved by the instruction set; on
/// the wire it is eight little-endian bytes.
#[derive(Clone, Copy, Debug, Default, PartialEq, Eq, PartialOrd, Ord, Structural)]
pub struct Register(pub u64);

impl View for Register {
    type V = u64;

    open spec fn view(&self) -> u64 {
        self.0
    }
}

impl Codec for Register {
    open spec fn wf(v: u64) -> bool {
        true
    }

    open spec fn encoded(v: u64) -> Seq<u8> {
        le_bytes(v as int, 8)
    }

    open spec fn decoded(s: Seq<u8>) -> Result<(u64, nat), WgseUtilsError> {
        if s.len() < 8 {
            Err(WgseUtilsError::IoFailure)
        } else {
            Ok((le_value(s.take(8)) as u64, 8nat))
        }
    }

    proof fn lemma_decoded_sound(s: Seq<u8>) {
    }

    proof fn lemma_round_trip(v: u64, rest: Seq<u8>) {
        lemma2_to64_rest();
        lemma_le64_round_trip(v as int, rest);
    }

    fn encode(&self, out: &mut Vec<u8>) {
        write_le64(self.0, out);
    }

    fn decode(data: &Vec<u8>, pos: usize) -> (r: Result<(Register, usize), WgseUtilsError>) {
        match read_le64(data, pos) {
            Ok((v, n)) => Ok((Register(v), n)),
            Err(e) => Err(e),
        }
    }
}

/// The abstract views of a run of elements, in order.
pub open spec fn elem_views<T: View>(s: Seq<T>) -> Seq<T::V> {
    s.map_values(|t: T| t@)
}

/// The concatenated encodings of a run of abstract values.
pub open spec fn encoded_elems<T: Codec>(w: Seq<T::V>) -> Seq<u8>
    decreases w.len(),
{
    if w.len() == 0 {
        Seq::empty()
    } else {
        T::encoded(w[0]) + encoded_elems::<T>(w.skip(1))
    }
}

/// Reading exactly `cnt` consecutive elements from the head of `s`,
/// failing as soon as one element fails.
pub open spec fn decoded_elems<T: Codec>(s: Seq<u8>, cnt: nat) -> Result<
    (Seq<T::V>, nat),
    WgseUtilsError,
>
    decreases cnt,
{
    if cnt == 0 {
        Ok((Seq::empty(), 0nat))
    } else {
        match T::decoded(s) {
            Ok((v, n)) => match decoded_elems::<T>(s.skip(n as int), (cnt - 1) as nat) {
                Ok((w, m)) => Ok((seq![v] + w, (n + m) as nat)),
                Err(e) => Err(e),
            },
            Err(e) => Err(e),
        }
    }
}

/// Element encoding distributes over concatenation.
pub proof fn lemma_encoded_elems_concat<T: Codec>(a: Seq<T::V>, b: Seq<T::V>)
    ensures
        encoded_elems::<T>(a + b) == encoded_elems::<T>(a) + encoded_elems::<T>(b),
    decreases a.len(),
{
    if a.len() == 0 {
        assert(a + b =~= b);
        assert(encoded_elems::<T>(a) + encoded_elems::<T>(b) =~= encoded_elems::<T>(b));
    } else {
        assert((a + b).len() > 0 && (a + b)[0] == a[0]);
        assert((a + b).skip(1) =~= a.skip(1) + b);
        lemma_encoded_elems_concat::<T>(a.skip(1), b);
        assert(encoded_elems::<T>(a + b) =~= encoded_elems::<T>(a) + encoded_elems::<T>(b));
    }
}

/// A run of `cnt` decoded elements has exactly `cnt` well-formed values and
/// stays within the input.
pub proof fn lemma_decoded_elems_sound<T: Codec>(s: Seq<u8>, cnt: nat)
    ensures
        decoded_elems::<T>(s, cnt) matches Ok((w, m)) ==> {
            &&& w.len() == cnt
            &&& m <= s.len()
            &&& forall|i: int| 0 <= i < w.len() ==> T::wf(#[trigger] w[i])
        },
    decreases cnt,
{
    if cnt > 0 {
        if T::decoded(s) is Ok {
            let (v, n) = T::decoded(s)->Ok_0;
            T::lemma_decoded_sound(s);
            lemma_decoded_elems_sound::<T>(s.skip(n as int), (cnt - 1) as nat);
        }
    }
}

/// Round trip for a run of elements: decoding the concatenated encodings,
/// with anything after them, yields the values back in order.
pub proof fn lemma_elems_round_trip<T: Codec>(w: Seq<T::V>, rest: Seq<u8>)
    requires
        forall|i: int| 0 <= i < w.len() ==> T::wf(#[trigger] w[i]),
    ensures
        decoded_elems::<T>(encoded_elems::<T>(w) + rest, w.len()) == Ok::<
            (Seq<T::V>, nat),
            WgseUtilsError,
        >((w, encoded_elems::<T>(w).len() as nat)),
    decreases w.len(),
{
    if w.len() == 0 {
        assert(w =~= Seq::<T::V>::empty());
    } else {
        let head_enc = T::encoded(w[0]);
        let tail_enc = encoded_elems::<T>(w.skip(1));
        T::lemma_round_trip(w[0], tail_enc + rest);
        assert(encoded_elems::<T>(w) + rest =~= head_enc + (tail_enc + rest));
        assert((head_enc + (tail_enc + rest)).skip(head_enc.len() as int) =~= tail_enc + rest);
        assert(forall|i: int| 0 <= i < w.skip(1).len() ==> T::wf(#[trigger] w.skip(1)[i]));
        lemma_elems_round_trip::<T>(w.skip(1), rest);
        assert(seq![w[0]] + w.skip(1) =~= w);
    }
}

/// A length-prefixed ordered sequence: a 64-bit little-endian element count
/// followed by exactly that many encoded elements, order preserved. On
/// write the count is always the number of elements; on read exactly the
/// announced count is consumed, no more, no fewer.
#[derive(Clone, Debug, Default, PartialEq, Eq)]
pub struct BinVec<T> {
    /// The elements carried by the container.
    pub buff: Vec<T>,
}

impl<T: View> View for BinVec<T> {
    type V = Seq<T::V>;

    open spec fn view(&self) -> Seq<T::V> {
        elem_views(self.buff@)
    }
}

impl<T> From<Vec<T>> for BinVec<T> {
    fn from(v: Vec<T>) -> (r: BinVec<T>) {
        BinVec { buff: v }
    }
}

impl<T> vstd::std_specs::convert::FromSpecImpl<Vec<T>> for BinVec<T> {
    open spec fn obeys_from_spec() -> bool {
        true
    }

    open spec fn from_spec(v: Vec<T>) -> BinVec<T> {
        BinVec { buff: v }
    }
}

impl<T> BinVec<T> {
    /// The elements, surrendering the container.
    pub fn into_vec(self) -> (r: Vec<T>)
        ensures
            r == self.buff,
    {
        self.buff
    }
}

impl<T: Codec> Codec for BinVec<T> {
    open spec fn wf(w: Seq<T::V>) -> bool {
        &&& w.len() <= u64::MAX
        &&& forall|i: int| 0 <= i < w.len() ==> T::wf(#[trigger] w[i])
    }

    open spec fn encoded(w: Seq<T::V>) -> Seq<u8> {
        le_bytes(w.len() as int, 8) + encoded_elems::<T>(w)
    }

    open spec fn decoded(s: Seq<u8>) -> Result<(Seq<T::V>, nat), WgseUtilsError> {
        if s.len() < 8 {
            Err(WgseUtilsError::IoFailure)
        } else {
            match decoded_elems::<T>(s.skip(8), le_value(s.take(8)) as nat) {
                Ok((w, m)) => Ok((w, (8 + m) as nat)),
                Err(e) => Err(e),
            }
        }
    }

    proof fn lemma_decoded_sound(s: Seq<u8>) {
        if s.len() >= 8 {
            let cnt = le_value(s.take(8)) as nat;
            lemma_le_value_bound(s.take(8));
            lemma2_to64_rest();
            lemma_decoded_elems_sound::<T>(s.skip(8), cnt);
        }
    }

    proof fn lemma_round_trip(w: Seq<T::V>, rest: Seq<u8>) {
        let cnt_enc = le_bytes(w.len() as int, 8);
        let body = encoded_elems::<T>(w);
        lemma2_to64_rest();
        lemma_le64_round_trip(w.len() as int, body + rest);
        assert(Self::encoded(w) + rest =~= cnt_enc + (body + rest));
        assert((cnt_enc + (body + rest)).skip(8) =~= body + rest);
        lemma_elems_round_trip::<T>(w, rest);
    }

    fn encode(&self, out: &mut Vec<u8>) {
        let ghost entry = out@;
        let ghost w = self@;
        write_le64(self.buff.len() as u64, out);
        let n = self.buff.len();
        let mut i: usize = 0;
        while i < n
            invariant
                i <= n,
                n == self.buff@.len(),
                w == elem_views(self.buff@),
                w.len() <= u64::MAX,
                forall|j: int| 0 <= j < w.len() ==> T::wf(#[trigger] w[j]),
                out@ == entry + le_bytes(w.len() as int, 8) + encoded_elems::<T>(
                    w.take(i as int),
                ),
            decreases n - i,
        {
            let elem: &T = &self.buff[i];
            assert(elem@ == w[i as int]);
            elem.encode(out);
            proof {
                assert(w.take(i + 1) =~= w.take(i as int) + seq![w[i as int]]);
                lemma_encoded_elems_concat::<T>(w.take(i as int), seq![w[i as int]]);
                assert(seq![w[i as int]].skip(1) =~= Seq::<T::V>::empty());
                assert(encoded_elems::<T>(Seq::<T::V>::empty()) =~= Seq::<u8>::empty());
                assert(encoded_elems::<T>(seq![w[i as int]]) == T::encoded(w[i as int])
                    + encoded_elems::<T>(seq![w[i as int]].skip(1)));
                assert(encoded_elems::<T>(seq![w[i as int]]) =~= T::encoded(w[i as int]));
                assert(out@ =~= entry + le_bytes(w.len() as int, 8) + encoded_elems::<T>(
                    w.take(i + 1),
                ));
            }
            i = i + 1;
        }
        proof {
            assert(w.take(n as int) =~= w);
            assert(out@ =~= entry + Self::encoded(w));
        }
    }

    fn decode(data: &Vec<u8>, pos: usize) -> (r: Result<(BinVec<T>, usize), WgseUtilsError>) {
        let ghost s = data@.skip(pos as int);
        match read_le64(data, pos) {
            Err(e) => {
                assert(s.len() < 8);
                Err(e)
            },
            Ok((cnt, _eight)) => {
                proof {
                    lemma_le_value_bound(s.take(8));
                }
                let dlen: usize = data.len();
                let mut buff: Vec<T> = Vec::new();
                let mut p: usize = pos + 8;
                let mut i: u64 = 0;
                proof {
                    assert(data@.skip(p as int) =~= s.skip(8));
                    assert(elem_views(buff@) =~= Seq::<T::V>::empty());
                }
                while i < cnt
                    invariant
                        i <= cnt,
                        dlen == data@.len(),
                        pos + 8 <= p <= data@.len(),
                        pos <= data@.len(),
                        s == data@.skip(pos as int),
                        cnt as int == le_value(s.take(8)),
                        buff@.len() == i,
                        forall|j: int| 0 <= j < buff@.len() ==> T::wf(
                            #[trigger] elem_views(buff@)[j],
                        ),
                        decoded_elems::<T>(s.skip(8), cnt as nat) == (match decoded_elems::<T>(
                            data@.skip(p as int),
                            (cnt - i) as nat,
                        ) {
                            Ok((w2, m2)) => Ok::<(Seq<T::V>, nat), WgseUtilsError>(
                                (elem_views(buff@) + w2, ((p - pos - 8) + m2) as nat),
                            ),
                            Err(e2) => Err::<(Seq<T::V>, nat), WgseUtilsError>(e2),
                        }),
                    decreases cnt - i,
                {
                    let ghost pre = buff@;
                    match T::decode(data, p) {
                        Ok((v, n)) => {
                            proof {
                                assert(data@.skip(p as int).skip(n as int) =~= data@.skip(
                                    p as int + n as int,
                                ));
                            }
                            buff.push(v);
                            proof {
                                assert(elem_views(buff@) =~= elem_views(pre) + seq![v@]);
                                assert(elem_views(pre) + seq![v@] + decoded_elems::<T>(
                                    data@.skip(p as int + n as int),
                                    (cnt - i - 1) as nat,
                                )->Ok_0.0 =~= elem_views(pre) + (seq![v@] + decoded_elems::<T>(
                                    data@.skip(p as int + n as int),
                                    (cnt - i - 1) as nat,
                                )->Ok_0.0));
                            }
                            p = p + n;
                            i = i + 1;
                        },
                        Err(e) => {
                            return Err(e);
                        },
                    }
                }
                proof {
                    assert(elem_views(buff@) + Seq::<T::V>::empty() =~= elem_views(buff@));
                    lemma_decoded_elems_sound::<T>(s.skip(8), cnt as nat);
                }
                let result = BinVec { buff };
                assert(result@ == elem_views(result.buff@));
                Ok((result, p - pos))
            },
        }
    }
}

} // verus!
