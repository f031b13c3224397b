//! Decoding and encoding of the primitive values of Standard MIDI Files:
//! big-endian integers, integers restricted to fewer bits than their storage,
//! the variable-length quantity, the header fields, and the RIFF/RMID wrapper.
use vstd::prelude::*;

pub mod cursor;
pub mod restricted;
pub mod varlen;
pub mod fields;
pub mod riff;

verus! {

/// Why a read failed.
#[derive(Copy, Clone, PartialEq, Eq, Debug, Structural)]
pub enum ErrorKind {
    /// The data is structurally unusable: too few bytes, an unknown code or tag.
    Invalid,
    /// A value is present but breaks a width or range rule; only reported in strict mode.
    Malformed,
}

/// How out-of-range or truncated data is handled.
#[derive(Copy, Clone, PartialEq, Eq, Debug, Structural)]
pub enum Conformance {
    /// Every malformed value is an error.
    Strict,
    /// Malformed values are recovered: extra bits dropped, partial data kept.
    Lenient,
}

} // verus!
