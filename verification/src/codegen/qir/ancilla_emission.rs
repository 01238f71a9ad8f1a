//! Errors of ancilla-aware QIR emission.

use vstd::prelude::*;
use crate::text::concat;

verus! {

/// Error of QIR emission.
#[derive(Debug)]
pub enum CodegenError {
    QirError(String),
    InstructionError(String),
    EmissionError(String),
    VerificationError(String),
}

/// The message of an emission error.
pub open spec fn emission_error_text(e: CodegenError) -> Seq<char> {
    match e {
        CodegenError::QirError(s) => "QIR intrinsic error: "@ + s@,
        CodegenError::InstructionError(s) => "Instruction error: "@ + s@,
        CodegenError::EmissionError(s) => "Emission error: "@ + s@,
        CodegenError::VerificationError(s) => "Verification error: "@ + s@,
    }
}

impl CodegenError {
    /// The error's message.
    pub fn message(&self) -> (r: String)
        ensures
            r@ == emission_error_text(*self),
    {
        match self {
            CodegenError::QirError(s) => concat("QIR intrinsic error: ", s.as_str()),
            CodegenError::InstructionError(s) => concat("Instruction error: ", s.as_str()),
            CodegenError::EmissionError(s) => concat("Emission error: ", s.as_str()),
            CodegenError::VerificationError(s) => concat("Verification error: ", s.as_str()),
        }
    }
}

} // verus!
