//! The closed instruction set and its canonical character form.

use vstd::prelude::*;

verus! {

/// One instruction of the tape machine. The set is closed: the execution
/// engine handles every variant exhaustively.
#[derive(Clone, Copy, Debug, PartialEq, Eq, Structural)]
pub enum Instruction {
    /// `+`: add one to the current cell, wrapping 127 to 0.
    Increment,
    /// `-`: subtract one from the current cell, wrapping 0 to 127.
    Decrement,
    /// `<`: move the data pointer left, clamping at 0.
    Left,
    /// `>`: move the data pointer right, growing the tape as needed.
    Right,
    /// `[`: if the current cell is 0, jump past the matching `]`.
    Open,
    /// `]`: if the current cell is not 0, jump back to the matching `[`.
    Close,
    /// `,`: read one byte from the console into the current cell.
    Input,
    /// `.`: write the current cell to the console.
    Output,
    /// `@`: pause for a line of input when breakpoints are enabled.
    Break,
}

/// The canonical source character of each instruction.
pub open spec fn spec_instruction_char(instruction: Instruction) -> char {
    match instruction {
        Instruction::Increment => '+',
        Instruction::Decrement => '-',
        Instruction::Left => '<',
        Instruction::Right => '>',
        Instruction::Open => '[',
        Instruction::Close => ']',
        Instruction::Input => ',',
        Instruction::Output => '.',
        Instruction::Break => '@',
    }
}

/// Returns the canonical source character of `instruction`.
pub fn instruction_to_char(instruction: &Instruction) -> (c: char)
    ensures
        c == spec_instruction_char(*instruction),
{
    match instruction {
        Instruction::Increment => '+',
        Instruction::Decrement => '-',
        Instruction::Left => '<',
        Instruction::Right => '>',
        Instruction::Open => '[',
        Instruction::Close => ']',
        Instruction::Input => ',',
        Instruction::Output => '.',
        Instruction::Break => '@',
    }
}

} // verus!
