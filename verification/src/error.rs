//! The ways in which the codec refuses its input.

use vstd::prelude::*;

verus! {

/// Why encoding or decoding was refused.
#[derive(Clone, Copy, Debug, PartialEq, Eq)]
pub enum HintError {
    /// A counter does not fit the base field, so the value cannot be encoded.
    RangeViolation,
    /// The stream does not hold what a read request asks for: encoder and
    /// decoder disagree on the protocol.
    ProtocolMismatch,
}

impl HintError {
    /// The diagnostic to show when the refusal ends a run.
    pub fn diagnostic(&self) -> (text: &'static str)
        ensures
            text@ == match self {
                HintError::RangeViolation => "counter out of range for the base field"@,
                HintError::ProtocolMismatch => "hint protocol mismatch"@,
            },
    {
        match self {
            HintError::RangeViolation => "counter out of range for the base field",
            HintError::ProtocolMismatch => "hint protocol mismatch",
        }
    }
}

} // verus!
