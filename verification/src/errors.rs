//! The error taxonomy of the library: label validation failures, wire-format
//! parse failures, and serialization failures.

use vstd::prelude::*;

verus! {

/// What went wrong in a codec operation.
#[derive(Debug, PartialEq, Eq, Structural, Clone, Copy)]
pub enum DnsError {
    /// a label was empty or held a character outside alphanumeric/hyphen
    BadLabel,
    /// the bytes do not form a well-formed DNS message
    Parse,
    /// a value does not fit its wire field: a label over 63 bytes, a
    /// payload or section count over 65,535
    TooLong,
}

} // verus!
