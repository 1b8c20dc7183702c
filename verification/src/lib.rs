//! Binary encoding core of a bytecode virtual machine.
//!
//! The crate defines how typed runtime values, operand buffers and whole
//! instructions are laid out as bytes, and how those bytes are parsed back
//! into validated in-memory values. The wire format is little-endian only:
//! signed integers and addresses travel as signed-LEB128, reals as eight raw
//! bytes, and sequences as a 64-bit count followed by the elements.
//!
//! Every encoder and decoder carries a contract relating it to a purely
//! mathematical description of the format, and round-trip laws are proved
//! for each wire element.

pub mod codec;
pub mod errors;
pub mod instruction;
pub mod le64;
pub mod sleb128;
pub mod values;
pub mod wrapper;
