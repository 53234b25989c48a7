//! The lexer: source characters to instruction symbols.

use vstd::prelude::*;
use crate::instr::Instruction;
use crate::text::chars_vec;

verus! {

/// The instruction, if any, that a single source character denotes.
/// `@` denotes a breakpoint only while breakpoints are enabled; every
/// unrecognized character denotes nothing.
pub open spec fn spec_char_instruction(c: char, breakpoints: bool) -> Option<Instruction> {
    if c == '+' {
        Some(Instruction::Increment)
    } else if c == '-' {
        Some(Instruction::Decrement)
    } else if c == '<' {
        Some(Instruction::Left)
    } else if c == '>' {
        Some(Instruction::Right)
    } else if c == '[' {
        Some(Instruction::Open)
    } else if c == ']' {
        Some(Instruction::Close)
    } else if c == ',' {
        Some(Instruction::Input)
    } else if c == '.' {
        Some(Instruction::Output)
    } else if c == '@' && breakpoints {
        Some(Instruction::Break)
    } else {
        None
    }
}

/// The instruction sequence a source character sequence lexes to: each
/// recognized character contributes its instruction, in source order, and
/// every other character is dropped.
pub open spec fn spec_lex(s: Seq<char>, breakpoints: bool) -> Seq<Instruction>
    decreases s.len(),
{
    if s.len() == 0 {
        Seq::empty()
    } else {
        match spec_char_instruction(s.last(), breakpoints) {
            Some(i) => spec_lex(s.drop_last(), breakpoints).push(i),
            None => spec_lex(s.drop_last(), breakpoints),
        }
    }
}

/// Returns the instruction `c` denotes, if any.
pub(crate) fn char_instruction(c: char, breakpoints: bool) -> (r: Option<Instruction>)
    ensures
        r == spec_char_instruction(c, breakpoints),
{
    match c {
        '+' => Some(Instruction::Increment),
        '-' => Some(Instruction::Decrement),
        '<' => Some(Instruction::Left),
        '>' => Some(Instruction::Right),
        '[' => Some(Instruction::Open),
        ']' => Some(Instruction::Close),
        ',' => Some(Instruction::Input),
        '.' => Some(Instruction::Output),
        '@' => if breakpoints {
            Some(Instruction::Break)
        } else {
            None
        },
        _ => None,
    }
}

/// Lexes a character vector into its instruction sequence.
pub(crate) fn parse_chars(chars: &Vec<char>, breakpoints: bool) -> (r: Vec<Instruction>)
    ensures
        r@ == spec_lex(chars@, breakpoints),
{
    let mut r: Vec<Instruction> = Vec::new();
    let n = chars.len();
    let mut i: usize = 0;
    while i < n
        invariant
            i <= n,
            n == chars@.len(),
            r@ == spec_lex(chars@.take(i as int), breakpoints),
        decreases n - i,
    {
        match char_instruction(chars[i], breakpoints) {
            Some(ins) => r.push(ins),
            None => (),
        }
        proof {
            assert(chars@.take(i + 1 as int).drop_last() =~= chars@.take(i as int));
            assert(chars@.take(i + 1 as int).last() == chars@[i as int]);
        }
        i = i + 1;
    }
    proof {
        assert(chars@.take(n as int) =~= chars@);
    }
    r
}

/// Translates source text into its instruction sequence.
///
/// A pure, total filter: it never fails, and unrecognized characters
/// (comments, whitespace) are silently discarded.
pub fn parse_string(code: &str, breakpoints: bool) -> (r: Vec<Instruction>)
    ensures
        r@ == spec_lex(code@, breakpoints),
{
    let chars = chars_vec(code);
    parse_chars(&chars, breakpoints)
}

/// Lexing distributes over concatenation: a source split anywhere lexes to
/// the concatenation of the parts' instruction sequences.
pub proof fn lemma_lex_concat(a: Seq<char>, b: Seq<char>, breakpoints: bool)
    ensures
        spec_lex(a + b, breakpoints) == spec_lex(a, breakpoints) + spec_lex(b, breakpoints),
    decreases b.len(),
{
    if b.len() == 0 {
        assert(a + b =~= a);
        assert(spec_lex(a, breakpoints) + spec_lex(b, breakpoints) =~= spec_lex(a, breakpoints));
    } else {
        lemma_lex_concat(a, b.drop_last(), breakpoints);
        assert((a + b).drop_last() =~= a + b.drop_last());
        assert((a + b).last() == b.last());
        match spec_char_instruction(b.last(), breakpoints) {
            Some(i) => {
                assert(
                    (spec_lex(a, breakpoints) + spec_lex(b.drop_last(), breakpoints)).push(i)
                        =~= spec_lex(a, breakpoints) + spec_lex(b.drop_last(), breakpoints).push(i)
                );
            },
            None => (),
        }
    }
}

/// Lexing is a pure filter: the output is exactly the recognized characters
/// of the input, in their original relative order, each mapped to its
/// instruction. Unrecognized characters never appear in the output and never
/// affect how their neighbours are mapped.
pub proof fn lemma_lex_is_filter(s: Seq<char>, breakpoints: bool)
    ensures
        spec_lex(s, breakpoints) == s.filter(
            |c: char| spec_char_instruction(c, breakpoints) is Some,
        ).map_values(|c: char| spec_char_instruction(c, breakpoints)->0),
    decreases s.len(),
{
    reveal(Seq::filter);
    let pred = |c: char| spec_char_instruction(c, breakpoints) is Some;
    let f = |c: char| spec_char_instruction(c, breakpoints)->0;
    if s.len() == 0 {
        assert(spec_lex(s, breakpoints) =~= s.filter(pred).map_values(f));
    } else {
        lemma_lex_is_filter(s.drop_last(), breakpoints);
        match spec_char_instruction(s.last(), breakpoints) {
            Some(i) => {
                assert(s.filter(pred) == s.drop_last().filter(pred).push(s.last()));
                assert(
                    s.drop_last().filter(pred).push(s.last()).map_values(f)
                        =~= s.drop_last().filter(pred).map_values(f).push(f(s.last()))
                );
            },
            None => {
                assert(s.filter(pred) == s.drop_last().filter(pred));
            },
        }
    }
}

} // verus!
