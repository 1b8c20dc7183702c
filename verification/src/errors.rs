use vstd::prelude::*;

verus! {

/// The name of a runtime type, as carried by type-mismatch diagnostics.
#[derive(Clone, Copy, Debug, PartialEq, Eq, Structural)]
pub enum TypeName {
    Integer,
    Real,
    Address,
    Handle,
}

/// Every failure the codec layer can report. Malformed input is rejected,
/// never repaired, and each failure is returned to the immediate caller.
#[derive(Clone, Copy, Debug, PartialEq, Eq, Structural)]
pub enum WgseUtilsError {
    /// The underlying byte source or sink was exhausted or errored,
    /// for example a truncated stream.
    IoFailure,
    /// A variable-length integer decodes to a value wider than 64 bits.
    Overflow,
    /// An operation was requested in the unsupported big-endian mode;
    /// it fails before touching the stream.
    InvalidEndianness,
    /// A decoded address is zero or exceeds the 32-bit domain; carries the
    /// offending raw value.
    InvalidRange(i64),
    /// A capability conversion was invoked on a value variant that does not
    /// support it; carries the requested and the actual type.
    InconsistentType(TypeName, TypeName),
    /// A value tag byte does not match any known variant; carries the tag.
    UnknownDiscriminant(u8),
}

} // verus!
