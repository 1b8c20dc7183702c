use crate::codec::Codec;
use crate::codec::Endianness;
use crate::errors::TypeName;
use crate::errors::WgseUtilsError;
use crate::le64::le_bytes;
use crate::le64::le_value;
use crate::le64::lemma_le64_round_trip;
use crate::le64::read_le64;
use crate::le64::write_le64;
use crate::sleb128::lemma_sleb128_decode_bounds;
use crate::sleb128::lemma_sleb128_round_trip;
use crate::sleb128::read_sleb128;
use crate::sleb128::sleb128_decoded;
use crate::sleb128::sleb128_encoding;
use crate::sleb128::write_sleb128;
use std::marker::PhantomData;
use vstd::arithmetic::power2::lemma2_to64_rest;
use vstd::prelude::*;

verus! {

/// A signed 64-bit runtime integer; on the wire it is signed-LEB128.
#[derive(Clone, Copy, Debug, Default, PartialEq, Eq, PartialOrd, Ord, Structural)]
pub struct Integer(pub i64);

impl View for Integer {
    type V = i64;

    open spec fn view(&self) -> i64 {
        self.0
    }
}

impl Codec for Integer {
    open spec fn wf(v: i64) -> bool {
        true
    }

    open spec fn encoded(v: i64) -> Seq<u8> {
        sleb128_encoding(v as int)
    }

    open spec fn decoded(s: Seq<u8>) -> Result<(i64, nat), WgseUtilsError> {
        match sleb128_decoded(s) {
            Ok((v, n)) => Ok((v as i64, n)),
            Err(e) => Err(e),
        }
    }

    proof fn lemma_decoded_sound(s: Seq<u8>) {
        lemma_sleb128_decode_bounds(s, 0);
    }

    proof fn lemma_round_trip(v: i64, rest: Seq<u8>) {
        lemma_sleb128_round_trip(v as int, rest);
    }

    fn encode(&self, out: &mut Vec<u8>) {
        write_sleb128(self.0, out);
    }

    fn decode(data: &Vec<u8>, pos: usize) -> (r: Result<(Integer, usize), WgseUtilsError>) {
        match read_sleb128(data, pos) {
            Ok((v, n)) => Ok((Integer(v), n)),
            Err(e) => Err(e),
        }
    }
}

impl Integer {
    /// Encode with an explicit byte order. The variable-length integer
    /// format is little-endian only: a big-endian request fails before any
    /// byte is produced, leaving the output untouched.
    pub fn write_options(&self, out: &mut Vec<u8>, endian: Endianness) -> (r: Result<
        (),
        WgseUtilsError,
    >)
        ensures
            match endian {
                Endianness::Little => r == Ok::<(), WgseUtilsError>(()) && final(out)@ == old(
                    out,
                )@ + <Integer as Codec>::encoded(self@),
                Endianness::Big => r == Err::<(), WgseUtilsError>(
                    WgseUtilsError::InvalidEndianness,
                ) && final(out)@ == old(out)@,
            },
    {
        match endian {
            Endianness::Little => {
                self.encode(out);
                Ok(())
            },
            Endianness::Big => Err(WgseUtilsError::InvalidEndianness),
        }
    }

    /// Decode with an explicit byte order; a big-endian request fails
    /// before any byte is consumed.
    pub fn read_options(data: &Vec<u8>, pos: usize, endian: Endianness) -> (r: Result<
        (Integer, usize),
        WgseUtilsError,
    >)
        requires
            pos <= data@.len(),
        ensures
            match endian {
                Endianness::Little => (match r {
                    Ok(p) => <Integer as Codec>::decoded(data@.skip(pos as int)) == Ok::<
                        (i64, nat),
                        WgseUtilsError,
                    >((p.0@, p.1 as nat)) && pos + p.1 <= data@.len(),
                    Err(e) => <Integer as Codec>::decoded(data@.skip(pos as int)) == Err::<
                        (i64, nat),
                        WgseUtilsError,
                    >(e),
                }),
                Endianness::Big => r == Err::<(Integer, usize), WgseUtilsError>(
                    WgseUtilsError::InvalidEndianness,
                ),
            },
    {
        match endian {
            Endianness::Little => Integer::decode(data, pos),
            Endianness::Big => Err(WgseUtilsError::InvalidEndianness),
        }
    }
}

/// A 64-bit IEEE-754 double, held as its bit pattern; on the wire it is
/// eight raw little-endian bytes. Every bit pattern, NaN and infinity
/// included, is legal and round-trips byte for byte.
#[derive(Clone, Copy, Debug, Default, PartialEq, Eq, Structural)]
pub struct Real(u64);

impl View for Real {
    type V = u64;

    closed spec fn view(&self) -> u64 {
        self.0
    }
}

impl Real {
    /// The real whose IEEE-754 bit pattern is `bits`.
    pub fn from_bits(bits: u64) -> (r: Real)
        ensures
            r@ == bits,
    {
        Real(bits)
    }

    /// The IEEE-754 bit pattern of this real.
    pub fn bits(&self) -> (r: u64)
        ensures
            r == self@,
    {
        self.0
    }
}

impl Codec for Real {
    open spec fn wf(v: u64) -> bool {
        true
    }

    open spec fn encoded(v: u64) -> Seq<u8> {
        le_bytes(v as int, 8)
    }

    open spec fn decoded(s: Seq<u8>) -> Result<(u64, nat), WgseUtilsError> {
        if s.len() < 8 {
            Err(WgseUtilsError::IoFailure)
        } else {
            Ok((le_value(s.take(8)) as u64, 8nat))
        }
    }

    proof fn lemma_decoded_sound(s: Seq<u8>) {
    }

    proof fn lemma_round_trip(v: u64, rest: Seq<u8>) {
        lemma2_to64_rest();
        lemma_le64_round_trip(v as int, rest);
    }

    fn encode(&self, out: &mut Vec<u8>) {
        write_le64(self.0, out);
    }

    fn decode(data: &Vec<u8>, pos: usize) -> (r: Result<(Real, usize), WgseUtilsError>) {
        match read_le64(data, pos) {
            Ok((v, n)) => Ok((Real(v), n)),
            Err(e) => Err(e),
        }
    }
}

/// A validated reference to a VM object slot: a 32-bit value that is never
/// zero. On the wire it is widened to a signed 64-bit value and written
/// with the same variable-length codec as `Integer`; a decoded raw value
/// outside `[1, 0xFFFF_FFFF]` is rejected, carrying the offending value.
#[derive(Clone, Copy, Debug, PartialEq, Eq, PartialOrd, Ord, Structural)]
pub struct Address(u32);

impl View for Address {
    type V = u32;

    closed spec fn view(&self) -> u32 {
        self.0
    }
}

impl Address {
    /// The only construction from in-memory data: a non-zero 32-bit value.
    pub fn new(raw: u32) -> (r: Result<Address, WgseUtilsError>)
        ensures
            match r {
                Ok(a) => raw != 0 && a@ == raw,
                Err(e) => raw == 0 && e == WgseUtilsError::InvalidRange(0),
            },
    {
        if raw == 0 {
            Err(WgseUtilsError::InvalidRange(0))
        } else {
            Ok(Address(raw))
        }
    }

    /// The raw 32-bit reference value.
    pub fn raw(&self) -> (r: u32)
        ensures
            r == self@,
    {
        self.0
    }

    /// Encode with an explicit byte order; as for `Integer`, big-endian
    /// fails before any byte is produced, leaving the output untouched.
    pub fn write_options(&self, out: &mut Vec<u8>, endian: Endianness) -> (r: Result<
        (),
        WgseUtilsError,
    >)
        requires
            self@ != 0,
        ensures
            match endian {
                Endianness::Little => r == Ok::<(), WgseUtilsError>(()) && final(out)@ == old(
                    out,
                )@ + <Address as Codec>::encoded(self@),
                Endianness::Big => r == Err::<(), WgseUtilsError>(
                    WgseUtilsError::InvalidEndianness,
                ) && final(out)@ == old(out)@,
            },
    {
        match endian {
            Endianness::Little => {
                self.encode(out);
                Ok(())
            },
            Endianness::Big => Err(WgseUtilsError::InvalidEndianness),
        }
    }

    /// Decode with an explicit byte order; a big-endian request fails
    /// before any byte is consumed.
    pub fn read_options(data: &Vec<u8>, pos: usize, endian: Endianness) -> (r: Result<
        (Address, usize),
        WgseUtilsError,
    >)
        requires
            pos <= data@.len(),
        ensures
            match endian {
                Endianness::Little => (match r {
                    Ok(p) => <Address as Codec>::decoded(data@.skip(pos as int)) == Ok::<
                        (u32, nat),
                        WgseUtilsError,
                    >((p.0@, p.1 as nat)) && p.0@ != 0 && pos + p.1 <= data@.len(),
                    Err(e) => <Address as Codec>::decoded(data@.skip(pos as int)) == Err::<
                        (u32, nat),
                        WgseUtilsError,
                    >(e),
                }),
                Endianness::Big => r == Err::<(Address, usize), WgseUtilsError>(
                    WgseUtilsError::InvalidEndianness,
                ),
            },
    {
        match endian {
            Endianness::Little => Address::decode(data, pos),
            Endianness::Big => Err(WgseUtilsError::InvalidEndianness),
        }
    }
}

impl Codec for Address {
    open spec fn wf(v: u32) -> bool {
        v != 0
    }

    open spec fn encoded(v: u32) -> Seq<u8> {
        sleb128_encoding(v as int)
    }

    open spec fn decoded(s: Seq<u8>) -> Result<(u32, nat), WgseUtilsError> {
        match sleb128_decoded(s) {
            Ok((v, n)) => if 1 <= v <= u32::MAX {
                Ok((v as u32, n))
            } else {
                Err(WgseUtilsError::InvalidRange(v as i64))
            },
            Err(e) => Err(e),
        }
    }

    proof fn lemma_decoded_sound(s: Seq<u8>) {
        lemma_sleb128_decode_bounds(s, 0);
    }

    proof fn lemma_round_trip(v: u32, rest: Seq<u8>) {
        lemma_sleb128_round_trip(v as int, rest);
    }

    fn encode(&self, out: &mut Vec<u8>) {
        write_sleb128(self.0 as i64, out);
    }

    fn decode(data: &Vec<u8>, pos: usize) -> (r: Result<(Address, usize), WgseUtilsError>) {
        match read_sleb128(data, pos) {
            Ok((v, n)) => if 1 <= v && v <= (u32::MAX as i64) {
                Ok((Address(v as u32), n))
            } else {
                Err(WgseUtilsError::InvalidRange(v))
            },
            Err(e) => Err(e),
        }
    }
}

/// A type-tagged view of a validated address. The tag is compile-time
/// only and has no effect on any serialized byte; the sole production path
/// is the capability conversion on a decoded `Value`, so every handle
/// originates from a validated address.
#[derive(Debug, PartialEq, Eq)]
pub struct Handle<T> {
    /// The raw 32-bit address the handle was made from.
    pub address: u32,
    marker: PhantomData<T>,
}

impl<T> View for Handle<T> {
    type V = u32;

    closed spec fn view(&self) -> u32 {
        self.address
    }
}

impl<T> Handle<T> {
    fn new(address: u32) -> (h: Handle<T>)
        ensures
            h@ == address,
    {
        Handle { address, marker: PhantomData }
    }

    /// The raw 32-bit address the handle was made from.
    pub fn raw(&self) -> (r: u32)
        ensures
            r == self@,
    {
        self.address
    }
}

/// The universal tagged runtime value: exactly one variant is active.
#[derive(Clone, Copy, Debug, PartialEq, Eq, Structural)]
pub enum Value {
    Integer(Integer),
    Real(Real),
    Address(Address),
}

/// The abstract form of a tagged runtime value: the integer payload, the
/// real's bit pattern, or the raw address.
pub enum ValueView {
    Integer(i64),
    Real(u64),
    Address(u32),
}

impl View for Value {
    type V = ValueView;

    closed spec fn view(&self) -> ValueView {
        match *self {
            Value::Integer(i) => ValueView::Integer(i.0),
            Value::Real(r) => ValueView::Real(r.0),
            Value::Address(a) => ValueView::Address(a.0),
        }
    }
}

impl Value {
    /// The runtime type of the active variant, as named in diagnostics.
    pub open spec fn kind(self) -> TypeName {
        match self {
            Value::Integer(_) => TypeName::Integer,
            Value::Real(_) => TypeName::Real,
            Value::Address(_) => TypeName::Address,
        }
    }

    /// The runtime type of the active variant.
    pub fn runtime_type(&self) -> (t: TypeName)
        ensures
            t == self.kind(),
    {
        match *self {
            Value::Integer(_) => TypeName::Integer,
            Value::Real(_) => TypeName::Real,
            Value::Address(_) => TypeName::Address,
        }
    }

    /// Narrow to the integer payload. Exactly the `Integer` variant
    /// supports this; any other variant reports the requested and the
    /// actual type.
    pub fn try_to_integer(&self) -> (r: Result<i64, WgseUtilsError>)
        ensures
            *self matches Value::Integer(i) ==> r == Ok::<i64, WgseUtilsError>(i.0),
            !(*self is Integer) ==> r == Err::<i64, WgseUtilsError>(
                WgseUtilsError::InconsistentType(TypeName::Integer, self.kind()),
            ),
    {
        match *self {
            Value::Integer(i) => Ok(i.0),
            _ => Err(WgseUtilsError::InconsistentType(TypeName::Integer, self.runtime_type())),
        }
    }

    /// Narrow to the real payload. Exactly the `Real` variant supports
    /// this; any other variant reports the requested and the actual type.
    pub fn try_to_real(&self) -> (r: Result<Real, WgseUtilsError>)
        ensures
            *self matches Value::Real(x) ==> r == Ok::<Real, WgseUtilsError>(x),
            !(*self is Real) ==> r == Err::<Real, WgseUtilsError>(
                WgseUtilsError::InconsistentType(TypeName::Real, self.kind()),
            ),
    {
        match *self {
            Value::Real(x) => Ok(x),
            _ => Err(WgseUtilsError::InconsistentType(TypeName::Real, self.runtime_type())),
        }
    }

    /// Narrow to a type-tagged handle. Exactly the `Address` variant
    /// supports this, and on it the conversion always succeeds, wrapping
    /// the already-validated address; any other variant reports the
    /// requested and the actual type.
    pub fn try_to_handle<T>(&self) -> (r: Result<Handle<T>, WgseUtilsError>)
        ensures
            *self matches Value::Address(a) ==> (r matches Ok(h) && h@ == a@),
            !(*self is Address) ==> r == Err::<Handle<T>, WgseUtilsError>(
                WgseUtilsError::InconsistentType(TypeName::Handle, self.kind()),
            ),
    {
        match *self {
            Value::Address(a) => Ok(Handle::<T>::new(a.raw())),
            _ => Err(WgseUtilsError::InconsistentType(TypeName::Handle, self.runtime_type())),
        }
    }
}

impl Codec for Value {
    open spec fn wf(v: ValueView) -> bool {
        match v {
            ValueView::Integer(_) => true,
            ValueView::Real(_) => true,
            ValueView::Address(a) => a != 0,
        }
    }

    open spec fn encoded(v: ValueView) -> Seq<u8> {
        match v {
            ValueView::Integer(i) => seq![0u8] + <Integer as Codec>::encoded(i),
            ValueView::Real(b) => seq![1u8] + <Real as Codec>::encoded(b),
            ValueView::Address(a) => seq![2u8] + <Address as Codec>::encoded(a),
        }
    }

    open spec fn decoded(s: Seq<u8>) -> Result<(ValueView, nat), WgseUtilsError> {
        if s.len() == 0 {
            Err(WgseUtilsError::IoFailure)
        } else if s[0] == 0 {
            match <Integer as Codec>::decoded(s.skip(1)) {
                Ok((v, n)) => Ok((ValueView::Integer(v), (n + 1) as nat)),
                Err(e) => Err(e),
            }
        } else if s[0] == 1 {
            match <Real as Codec>::decoded(s.skip(1)) {
                Ok((v, n)) => Ok((ValueView::Real(v), (n + 1) as nat)),
                Err(e) => Err(e),
            }
        } else if s[0] == 2 {
            match <Address as Codec>::decoded(s.skip(1)) {
                Ok((v, n)) => Ok((ValueView::Address(v), (n + 1) as nat)),
                Err(e) => Err(e),
            }
        } else {
            Err(WgseUtilsError::UnknownDiscriminant(s[0]))
        }
    }

    proof fn lemma_decoded_sound(s: Seq<u8>) {
        if s.len() > 0 {
            <Integer as Codec>::lemma_decoded_sound(s.skip(1));
            <Real as Codec>::lemma_decoded_sound(s.skip(1));
            <Address as Codec>::lemma_decoded_sound(s.skip(1));
        }
    }

    proof fn lemma_round_trip(v: ValueView, rest: Seq<u8>) {
        match v {
            ValueView::Integer(i) => {
                let payload = <Integer as Codec>::encoded(i);
                <Integer as Codec>::lemma_round_trip(i, rest);
                assert(Self::encoded(v) + rest =~= seq![0u8] + (payload + rest));
                assert((seq![0u8] + (payload + rest))[0] == 0u8);
                assert((seq![0u8] + (payload + rest)).skip(1) =~= payload + rest);
            },
            ValueView::Real(b) => {
                let payload = <Real as Codec>::encoded(b);
                <Real as Codec>::lemma_round_trip(b, rest);
                assert(Self::encoded(v) + rest =~= seq![1u8] + (payload + rest));
                assert((seq![1u8] + (payload + rest))[0] == 1u8);
                assert((seq![1u8] + (payload + rest)).skip(1) =~= payload + rest);
            },
            ValueView::Address(a) => {
                let payload = <Address as Codec>::encoded(a);
                <Address as Codec>::lemma_round_trip(a, rest);
                assert(Self::encoded(v) + rest =~= seq![2u8] + (payload + rest));
                assert((seq![2u8] + (payload + rest))[0] == 2u8);
                assert((seq![2u8] + (payload + rest)).skip(1) =~= payload + rest);
            },
        }
    }

    fn encode(&self, out: &mut Vec<u8>) {
        let ghost entry = out@;
        match self {
            Value::Integer(i) => {
                out.push(0u8);
                i.encode(out);
            },
            Value::Real(x) => {
                out.push(1u8);
                x.encode(out);
            },
            Value::Address(a) => {
                out.push(2u8);
                a.encode(out);
            },
        }
        assert(out@ =~= entry + Self::encoded(self@));
    }

    fn decode(data: &Vec<u8>, pos: usize) -> (r: Result<(Value, usize), WgseUtilsError>) {
        let ghost s = data@.skip(pos as int);
        if pos == data.len() {
            Err(WgseUtilsError::IoFailure)
        } else {
            // the length call keeps the consumed-byte sums within usize
            let dlen: usize = data.len();
            let tag: u8 = data[pos];
            assert(s[0] == tag);
            assert(s.skip(1) =~= data@.skip(pos as int + 1));
            if tag == 0 {
                match Integer::decode(data, pos + 1) {
                    Ok((v, n)) => Ok((Value::Integer(v), n + 1)),
                    Err(e) => Err(e),
                }
            } else if tag == 1 {
                match Real::decode(data, pos + 1) {
                    Ok((v, n)) => Ok((Value::Real(v), n + 1)),
                    Err(e) => Err(e),
                }
            } else if tag == 2 {
                match Address::decode(data, pos + 1) {
                    Ok((v, n)) => Ok((Value::Address(v), n + 1)),
                    Err(e) => Err(e),
                }
            } else {
                Err(WgseUtilsError::UnknownDiscriminant(tag))
            }
        }
    }
}

} // verus!
