//! The invocation surface: which translation path feeds the engine and which
//! instrumentation level applies.

use vstd::prelude::*;
use crate::instr::Instruction;

verus! {

/// How execution is instrumented.
#[derive(Clone, Copy, Debug, PartialEq, Eq, Structural)]
pub enum DebugMode {
    /// No instrumentation.
    Off,
    /// Print each instruction and the tape contents after it.
    Verbose,
    /// Verbose, and pause for a line of input at every instruction.
    Step,
}

/// One run's invocation: the program file, the instrumentation level, and
/// whether breakpoints and macros are enabled.
pub struct Args {
    /// Path of the source file to run.
    pub filepath: String,
    /// The instrumentation level.
    pub debug_mode: DebugMode,
    /// Keep `@` breakpoint symbols instead of dropping them.
    pub breakpoints: bool,
    /// Preprocess `name { body }` definitions and `@name@` call sites.
    pub macros: bool,
}

/// Which instrumentation follows one dispatched instruction: whether to
/// print the instruction with the tape, and whether to pause for a line of
/// input. Breakpoints never print but always pause; `Step` pauses at every
/// instruction.
pub fn debug_actions(debug_mode: &DebugMode, executed: &Instruction) -> (r: (bool, bool))
    ensures
        r.0 == (((debug_mode is Verbose) || (debug_mode is Step)) && !(executed is Break)),
        r.1 == ((debug_mode is Step) || (executed is Break)),
{
    let is_break = match executed {
        Instruction::Break => true,
        _ => false,
    };
    let verbose = match debug_mode {
        DebugMode::Verbose => true,
        DebugMode::Step => true,
        DebugMode::Off => false,
    };
    let step = match debug_mode {
        DebugMode::Step => true,
        _ => false,
    };
    (verbose && !is_break, step || is_break)
}

} // verus!
