use crate::codec::Codec;
use crate::errors::WgseUtilsError;
use crate::wrapper::BinVec;
use crate::wrapper::Opcode;
use vstd::prelude::*;

verus! {

/// One serialized instruction operand: an owned byte buffer holding the
/// little-endian encoding of some concrete type chosen by the writer. The
/// buffer carries no type tag of its own; the reader must already know,
/// from context such as the opcode's operand schema, which type to decode.
/// On the wire it is a length-prefixed run of raw bytes.
#[derive(Clone, Debug, Default, PartialEq, Eq)]
pub struct Argument(pub BinVec<u8>);

impl View for Argument {
    type V = Seq<u8>;

    open spec fn view(&self) -> Seq<u8> {
        self.0@
    }
}

impl Codec for Argument {
    open spec fn wf(w: Seq<u8>) -> bool {
        <BinVec<u8> as Codec>::wf(w)
    }

    open spec fn encoded(w: Seq<u8>) -> Seq<u8> {
        <BinVec<u8> as Codec>::encoded(w)
    }

    open spec fn decoded(s: Seq<u8>) -> Result<(Seq<u8>, nat), WgseUtilsError> {
        <BinVec<u8> as Codec>::decoded(s)
    }

    proof fn lemma_decoded_sound(s: Seq<u8>) {
        <BinVec<u8> as Codec>::lemma_decoded_sound(s);
    }

    proof fn lemma_round_trip(w: Seq<u8>, rest: Seq<u8>) {
        <BinVec<u8> as Codec>::lemma_round_trip(w, rest);
    }

    fn encode(&self, out: &mut Vec<u8>) {
        self.0.encode(out);
    }

    fn decode(data: &Vec<u8>, pos: usize) -> (r: Result<(Argument, usize), WgseUtilsError>) {
        match BinVec::<u8>::decode(data, pos) {
            Ok((bv, n)) => Ok((Argument(bv), n)),
            Err(e) => Err(e),
        }
    }
}

impl Argument {
    /// An empty operand buffer.
    pub fn new() -> (a: Argument)
        ensures
            a@ == Seq::<u8>::empty(),
    {
        let a = Argument(BinVec { buff: Vec::new() });
        proof {
            assert(a@ =~= Seq::<u8>::empty());
        }
        a
    }

    /// Replaces the buffer with the little-endian encoding of `t`, clearing
    /// any prior contents. Always total: no input is rejected.
    pub fn set<T: Codec>(&mut self, t: T) -> (r: Result<(), WgseUtilsError>)
        requires
            T::wf(t@),
        ensures
            r == Ok::<(), WgseUtilsError>(()),
            final(self)@ == T::encoded(t@),
    {
        self.0.buff.clear();
        t.encode(&mut self.0.buff);
        proof {
            assert(self@ =~= T::encoded(t@));
        }
        Ok(())
    }

    /// Interprets the current buffer contents as the little-endian encoding
    /// of `T` and decodes one value, ignoring any trailing bytes; failures
    /// are the underlying codec's own.
    pub fn get<T: Codec>(&self) -> (r: Result<T, WgseUtilsError>)
        ensures
            match r {
                Ok(v) => T::decoded(self@) matches Ok(p) && p.0 == v@ && T::wf(v@),
                Err(e) => T::decoded(self@) == Err::<(T::V, nat), WgseUtilsError>(e),
            },
    {
        proof {
            assert(self@ =~= self.0.buff@);
            assert(self.0.buff@.skip(0) =~= self.0.buff@);
        }
        match T::decode(&self.0.buff, 0) {
            Ok((v, _n)) => Ok(v),
            Err(e) => Err(e),
        }
    }
}

/// Writing an operand and reading it back with the same type yields the
/// original value: `set` followed by `get` is the identity on every
/// well-formed codeable value.
pub proof fn lemma_set_then_get<T: Codec>(v: T::V)
    requires
        T::wf(v),
    ensures
        T::decoded(T::encoded(v)) == Ok::<(T::V, nat), WgseUtilsError>(
            (v, T::encoded(v).len() as nat),
        ),
{
    T::lemma_round_trip(v, Seq::empty());
    assert(T::encoded(v) + Seq::<u8>::empty() =~= T::encoded(v));
}

/// One unit of the bytecode stream: an opcode followed by a
/// length-prefixed, order-preserving sequence of arguments. The argument
/// count is always written explicitly before the arguments. No validation
/// beyond the codec's own is performed here: operand count and operand
/// types against the opcode's semantics are the execution loop's concern.
#[derive(Clone, Debug, Default, PartialEq, Eq)]
pub struct Instruction {
    /// The operation selector.
    pub opcode: Opcode,
    /// The ordered operand list.
    pub arguments: BinVec<Argument>,
}

/// The abstract form of an instruction: the opcode byte and the byte
/// buffers of the arguments, in order.
pub struct InstructionView {
    /// The opcode byte.
    pub opcode: u8,
    /// The operand buffers, in order.
    pub arguments: Seq<Seq<u8>>,
}

impl View for Instruction {
    type V = InstructionView;

    open spec fn view(&self) -> InstructionView {
        InstructionView { opcode: self.opcode@, arguments: self.arguments@ }
    }
}

impl Codec for Instruction {
    open spec fn wf(v: InstructionView) -> bool {
        <BinVec<Argument> as Codec>::wf(v.arguments)
    }

    open spec fn encoded(v: InstructionView) -> Seq<u8> {
        <Opcode as Codec>::encoded(v.opcode) + <BinVec<Argument> as Codec>::encoded(v.arguments)
    }

    open spec fn decoded(s: Seq<u8>) -> Result<(InstructionView, nat), WgseUtilsError> {
        match <Opcode as Codec>::decoded(s) {
            Ok((op, n1)) => match <BinVec<Argument> as Codec>::decoded(s.skip(n1 as int)) {
                Ok((args, n2)) => Ok(
                    ((InstructionView { opcode: op, arguments: args }), (n1 + n2) as nat),
                ),
                Err(e) => Err(e),
            },
            Err(e) => Err(e),
        }
    }

    proof fn lemma_decoded_sound(s: Seq<u8>) {
        if s.len() > 0 {
            <BinVec<Argument> as Codec>::lemma_decoded_sound(s.skip(1));
        }
    }

    proof fn lemma_round_trip(v: InstructionView, rest: Seq<u8>) {
        let op_enc = <Opcode as Codec>::encoded(v.opcode);
        let args_enc = <BinVec<Argument> as Codec>::encoded(v.arguments);
        <Opcode as Codec>::lemma_round_trip(v.opcode, args_enc + rest);
        <BinVec<Argument> as Codec>::lemma_round_trip(v.arguments, rest);
        assert(Self::encoded(v) + rest =~= op_enc + (args_enc + rest));
        assert((op_enc + (args_enc + rest)).skip(1) =~= args_enc + rest);
    }

    fn encode(&self, out: &mut Vec<u8>) {
        let ghost entry = out@;
        self.opcode.encode(out);
        self.arguments.encode(out);
        assert(out@ =~= entry + Self::encoded(self@));
    }

    fn decode(data: &Vec<u8>, pos: usize) -> (r: Result<(Instruction, usize), WgseUtilsError>) {
        let ghost s = data@.skip(pos as int);
        // the length call keeps the consumed-byte sums within usize
        let dlen: usize = data.len();
        match Opcode::decode(data, pos) {
            Err(e) => Err(e),
            Ok((op, n1)) => {
                proof {
                    assert(s.skip(n1 as int) =~= data@.skip(pos as int + n1 as int));
                }
                match BinVec::<Argument>::decode(data, pos + n1) {
                    Ok((args, n2)) => Ok((Instruction { opcode: op, arguments: args }, n1 + n2)),
                    Err(e) => Err(e),
                }
            },
        }
    }
}

} // verus!
