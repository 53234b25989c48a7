//! The closed set of failure kinds.
//!
//! Every fallible operation of the interpreter reports one of these kinds, so
//! callers can match on the failure rather than inspect opaque messages.

use vstd::prelude::*;

verus! {

/// Everything that can go wrong while preprocessing, translating or running a
/// program.
#[derive(Clone, Copy, Debug, PartialEq, Eq, Structural)]
pub enum BfError {
    /// `{` and `}` counts disagree in the source.
    UnmatchedBrace,
    /// A macro body contains `{`.
    NestedMacroDefinition,
    /// A macro definition has no name token before its `{`.
    MissingMacroName,
    /// A macro name contains an instruction character.
    InvalidMacroName,
    /// The macro dependency graph has a cycle.
    RecursiveMacroReference,
    /// A `[` or `]` has no structural partner.
    UnmatchedBracket,
    /// An input byte exceeds 127.
    NonAsciiInput,
    /// Console or file input/output failed.
    IOFailure,
    /// A required invocation argument is absent.
    MissingArgument,
}

impl BfError {
    /// A short human-readable description of the failure.
    pub fn describe(&self) -> (r: &'static str)
        ensures
            r@ == (match *self {
                BfError::UnmatchedBrace => "all curly brackets must be matched"@,
                BfError::NestedMacroDefinition => "macros in macros are not allowed"@,
                BfError::MissingMacroName => "macros must have a name"@,
                BfError::InvalidMacroName => "macro name cannot contain instructions"@,
                BfError::RecursiveMacroReference => "recursive macros are not allowed"@,
                BfError::UnmatchedBracket => "all brackets must have matching brackets"@,
                BfError::NonAsciiInput => "input must be an ASCII character"@,
                BfError::IOFailure => "input or output failed"@,
                BfError::MissingArgument => "a required argument is missing"@,
            }),
    {
        match self {
            BfError::UnmatchedBrace => "all curly brackets must be matched",
            BfError::NestedMacroDefinition => "macros in macros are not allowed",
            BfError::MissingMacroName => "macros must have a name",
            BfError::InvalidMacroName => "macro name cannot contain instructions",
            BfError::RecursiveMacroReference => "recursive macros are not allowed",
            BfError::UnmatchedBracket => "all brackets must have matching brackets",
            BfError::NonAsciiInput => "input must be an ASCII character",
            BfError::IOFailure => "input or output failed",
            BfError::MissingArgument => "a required argument is missing",
        }
    }
}

} // verus!
