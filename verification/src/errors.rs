//! The ways a protocol record can fail to decode.

use vstd::prelude::*;

verus! {

/// Why a line could not be decoded. Each variant carries the offending text,
/// so a caller can report what was rejected.
#[derive(Debug, PartialEq, Eq)]
pub enum DecodeError {
    /// The line is not of the JSON shape the protocol allows.
    Malformed(String),
    /// A well-formed header object that lacks the required `version` field.
    MissingVersion(String),
    /// An integer field whose value does not fit in `usize`.
    NumberTooLarge(String),
    /// A string that names none of the alignment tokens; holds that string.
    InvalidAlignment(String),
}

} // verus!
