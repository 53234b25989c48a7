//! Bidirectional bracket matching for loop control flow.

use vstd::prelude::*;
use crate::errors::BfError;
use crate::instr::Instruction;

verus! {

/// The forward scan from position `i` at nesting `level`: the first `Close`
/// seen at level zero is the match; `Open` deepens the nesting.
pub open spec fn fwd_scan(s: Seq<Instruction>, i: int, level: int) -> Option<int>
    decreases s.len() - i,
{
    if i < 0 || i >= s.len() {
        None
    } else if s[i] == Instruction::Close {
        if level == 0 {
            Some(i)
        } else {
            fwd_scan(s, i + 1, level - 1)
        }
    } else if s[i] == Instruction::Open {
        fwd_scan(s, i + 1, level + 1)
    } else {
        fwd_scan(s, i + 1, level)
    }
}

/// The backward scan over positions `n - 1` down to `0` at nesting `level`:
/// the first `Open` seen at level zero is the match; `Close` deepens the
/// nesting.
pub open spec fn bwd_scan(s: Seq<Instruction>, n: int, level: int) -> Option<int>
    decreases n,
{
    if n <= 0 {
        None
    } else if s[n - 1] == Instruction::Open {
        if level == 0 {
            Some(n - 1)
        } else {
            bwd_scan(s, n - 1, level - 1)
        }
    } else if s[n - 1] == Instruction::Close {
        bwd_scan(s, n - 1, level + 1)
    } else {
        bwd_scan(s, n - 1, level)
    }
}

/// The index of the `Close` that ends the loop body starting at index 0 of
/// `s`, if one exists.
pub open spec fn spec_forward_match(s: Seq<Instruction>) -> Option<int> {
    fwd_scan(s, 0, 0)
}

/// The index of the `Open` that begins the loop body ending at `s`'s end, if
/// one exists.
pub open spec fn spec_backward_match(s: Seq<Instruction>) -> Option<int> {
    bwd_scan(s, s.len() as int, 0)
}

/// The bracket nesting depth in front of position `i`: `Open`s minus
/// `Close`s among the first `i` instructions.
pub open spec fn spec_depth(s: Seq<Instruction>, i: int) -> int
    decreases i,
{
    if i <= 0 {
        0
    } else {
        spec_depth(s, i - 1) + if s[i - 1] == Instruction::Open {
            1
        } else if s[i - 1] == Instruction::Close {
            -1
        } else {
            0
        }
    }
}

/// The reverse bracket balance behind position `i`: `Close`s minus `Open`s
/// among the instructions from `i` to the end.
pub open spec fn spec_rdepth(s: Seq<Instruction>, i: int) -> int
    decreases s.len() - i,
{
    if i < 0 || i >= s.len() {
        0
    } else {
        spec_rdepth(s, i + 1) + if s[i] == Instruction::Close {
            1
        } else if s[i] == Instruction::Open {
            -1
        } else {
            0
        }
    }
}

proof fn lemma_fwd_scan_props(s: Seq<Instruction>, i: int, level: int)
    requires
        0 <= i <= s.len(),
        0 <= level,
        level == spec_depth(s, i),
    ensures
        match fwd_scan(s, i, level) {
            Some(k) => i <= k < s.len() && s[k] == Instruction::Close && spec_depth(s, k) == 0
                && (forall|j: int|
                    i <= j < k && s[j] == Instruction::Close ==> spec_depth(s, j) > 0),
            None => forall|j: int|
                i <= j < s.len() && s[j] == Instruction::Close ==> spec_depth(s, j) > 0,
        },
    decreases s.len() - i,
{
    if i < s.len() {
        if s[i] == Instruction::Close {
            if level != 0 {
                lemma_fwd_scan_props(s, i + 1, level - 1);
            }
        } else if s[i] == Instruction::Open {
            lemma_fwd_scan_props(s, i + 1, level + 1);
        } else {
            lemma_fwd_scan_props(s, i + 1, level);
        }
    }
}

proof fn lemma_bwd_scan_props(s: Seq<Instruction>, n: int, level: int)
    requires
        0 <= n <= s.len(),
        0 <= level,
        level == spec_rdepth(s, n),
    ensures
        match bwd_scan(s, n, level) {
            Some(k) => 0 <= k < n && s[k] == Instruction::Open && spec_rdepth(s, k + 1) == 0
                && (forall|j: int|
                    k < j < n && s[j] == Instruction::Open ==> spec_rdepth(s, j + 1) > 0),
            None => forall|j: int|
                0 <= j < n && s[j] == Instruction::Open ==> spec_rdepth(s, j + 1) > 0,
        },
    decreases n,
{
    if n > 0 {
        if s[n - 1] == Instruction::Open {
            if level != 0 {
                lemma_bwd_scan_props(s, n - 1, level - 1);
            }
        } else if s[n - 1] == Instruction::Close {
            lemma_bwd_scan_props(s, n - 1, level + 1);
        } else {
            lemma_bwd_scan_props(s, n - 1, level);
        }
    }
}

/// What the forward match means structurally: it is the first `Close` whose
/// nesting depth is zero, and when none exists every `Close` sits at positive
/// depth.
pub proof fn lemma_forward_match_characterization(s: Seq<Instruction>)
    ensures
        match spec_forward_match(s) {
            Some(k) => 0 <= k < s.len() && s[k] == Instruction::Close && spec_depth(s, k) == 0
                && (forall|j: int|
                    0 <= j < k && s[j] == Instruction::Close ==> spec_depth(s, j) > 0),
            None => forall|j: int|
                0 <= j < s.len() && s[j] == Instruction::Close ==> spec_depth(s, j) > 0,
        },
{
    lemma_fwd_scan_props(s, 0, 0);
}

/// What the backward match means structurally: it is the last `Open` behind
/// which the brackets balance, and when none exists every `Open` is followed
/// by an excess of `Close`s.
pub proof fn lemma_backward_match_characterization(s: Seq<Instruction>)
    ensures
        match spec_backward_match(s) {
            Some(k) => 0 <= k < s.len() && s[k] == Instruction::Open && spec_rdepth(s, k + 1)
                == 0 && (forall|j: int|
                    k < j < s.len() && s[j] == Instruction::Open ==> spec_rdepth(s, j + 1) > 0),
            None => forall|j: int|
                0 <= j < s.len() && s[j] == Instruction::Open ==> spec_rdepth(s, j + 1) > 0,
        },
{
    lemma_bwd_scan_props(s, s.len() as int, 0);
}

/// Finds the structurally matching loop boundary in `instructions`.
///
/// Forwards, the scan looks for the `Close` matching an `Open` just in front
/// of the sequence; backwards, for the `Open` matching a `Close` just behind
/// it. Fails with `UnmatchedBracket` exactly when no match exists.
pub fn find_matching_bracket(instructions: &[Instruction], forwards: bool) -> (r: Result<
    usize,
    BfError,
>)
    ensures
        forwards ==> match r {
            Ok(k) => spec_forward_match(instructions@) == Some(k as int),
            Err(e) => spec_forward_match(instructions@) is None && e == BfError::UnmatchedBracket,
        },
        !forwards ==> match r {
            Ok(k) => spec_backward_match(instructions@) == Some(k as int),
            Err(e) => spec_backward_match(instructions@) is None && e == BfError::UnmatchedBracket,
        },
{
    let n = instructions.len();
    if forwards {
        let mut i: usize = 0;
        let mut level: usize = 0;
        while i < n
            invariant
                forwards,
                i <= n,
                n == instructions@.len(),
                level <= i,
                fwd_scan(instructions@, i as int, level as int) == spec_forward_match(
                    instructions@,
                ),
            decreases n - i,
        {
            match instructions[i] {
                Instruction::Open => {
                    level = level + 1;
                },
                Instruction::Close => {
                    if level > 0 {
                        level = level - 1;
                    } else {
                        proof {
                            reveal_with_fuel(fwd_scan, 2);
                            assert(fwd_scan(instructions@, i as int, 0) == Some(i as int));
                        }
                        return Ok(i);
                    }
                },
                _ => (),
            }
            i = i + 1;
        }
        Err(BfError::UnmatchedBracket)
    } else {
        let mut i: usize = n;
        let mut level: usize = 0;
        while i > 0
            invariant
                !forwards,
                i <= n,
                n == instructions@.len(),
                level <= n - i,
                bwd_scan(instructions@, i as int, level as int) == spec_backward_match(
                    instructions@,
                ),
            decreases i,
        {
            i = i - 1;
            match instructions[i] {
                Instruction::Close => {
                    level = level + 1;
                },
                Instruction::Open => {
                    if level > 0 {
                        level = level - 1;
                    } else {
                        proof {
                            reveal_with_fuel(bwd_scan, 2);
                            assert(bwd_scan(instructions@, i + 1 as int, 0) == Some(i as int));
                        }
                        return Ok(i);
                    }
                },
                _ => (),
            }
        }
        Err(BfError::UnmatchedBracket)
    }
}

} // verus!
