//! A verified interpreter for a minimal tape-based instruction language with
//! named macros and optional breakpoints.
//!
//! Source text is lexed into instruction sequences, macro call sites are
//! rewritten by a work-list preprocessor, and the resulting program runs on a
//! single-tape machine whose cells wrap modulo 128.

pub mod brackets;
pub mod config;
pub mod errors;
pub mod instr;
pub mod lexer;
pub mod machine;
pub mod preprocess;
pub mod text;

pub use brackets::find_matching_bracket;
pub use config::debug_actions;
pub use config::Args;
pub use config::DebugMode;
pub use errors::BfError;
pub use instr::instruction_to_char;
pub use instr::Instruction;
pub use lexer::parse_string;
pub use machine::run_program;
pub use machine::Machine;
pub use machine::RunOutcome;
pub use machine::StepEvent;
pub use preprocess::parse_string_macros;

use vstd::prelude::*;

verus! {

/// Translates source text into its instruction sequence: through the macro
/// preprocessor when macros are enabled, else through the plain lexer.
pub fn translate(code: &str, breakpoints: bool, macros: bool) -> (r: Result<
    Vec<Instruction>,
    BfError,
>)
    ensures
        macros ==> match r {
            Ok(v) => preprocess::spec_resolve_macros(code@, breakpoints) matches Ok(s) && v@ == s,
            Err(e) => preprocess::spec_resolve_macros(code@, breakpoints) matches Err(e2) && e
                == e2,
        },
        !macros ==> (r matches Ok(v) && v@ == lexer::spec_lex(code@, breakpoints)),
{
    if macros {
        parse_string_macros(code, breakpoints)
    } else {
        Ok(parse_string(code, breakpoints))
    }
}

} // verus!
