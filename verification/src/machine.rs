//! The execution engine: a single-tape machine stepped one instruction at a
//! time.
//!
//! The whole machine is modelled by [`VmState`] and the one-step transition
//! [`vm_step`]; the executable [`Machine`] is proved to follow that
//! transition exactly. Console work (reading bytes, printing) stays with the
//! caller: the machine reports when it wants input or produced output, and
//! the caller feeds bytes back through [`Machine::supply_input`].

use vstd::prelude::*;
use crate::brackets::find_matching_bracket;
use crate::brackets::lemma_backward_match_characterization;
use crate::brackets::lemma_forward_match_characterization;
use crate::brackets::spec_backward_match;
use crate::brackets::spec_forward_match;
use crate::errors::BfError;
use crate::instr::Instruction;

verus! {

/// The mathematical state of the machine: the program, the instruction
/// pointer, the data pointer, and the tape.
pub struct VmState {
    pub prog: Seq<Instruction>,
    pub ip: int,
    pub dp: int,
    pub tape: Seq<u8>,
}

/// Well-formedness: the instruction pointer stays within the program (one
/// past the end means halted), the data pointer stays on the tape, and every
/// cell holds a value in `[0, 127]`.
pub open spec fn vm_wf(s: VmState) -> bool {
    &&& 0 <= s.ip <= s.prog.len()
    &&& 0 <= s.dp < s.tape.len()
    &&& forall|i: int| 0 <= i < s.tape.len() ==> s.tape[i] <= 127
}

/// The state a fresh machine starts in: instruction pointer 0, data pointer
/// 0, a single zero cell.
pub open spec fn init_state(prog: Seq<Instruction>) -> VmState {
    VmState { prog, ip: 0, dp: 0, tape: seq![0u8] }
}

/// What one step of the machine does.
pub enum VmStepResult {
    /// The instruction pointer has reached the end of the program.
    Halt,
    /// One instruction was dispatched: the successor state, and the byte
    /// written by an `Output` instruction if there was one.
    Next(VmState, Option<u8>),
    /// The current instruction is `Input`: the machine waits for one byte.
    Await,
    /// Execution fails: a loop boundary has no structural partner.
    Abort(BfError),
}

/// The one-step transition of the machine, exactly as each instruction is
/// dispatched: cells wrap modulo 128, the data pointer clamps at 0 on `Left`
/// and grows the tape on `Right`, and loop boundaries jump via bracket
/// matching.
pub open spec fn vm_step(s: VmState) -> VmStepResult {
    if !(0 <= s.ip < s.prog.len()) {
        VmStepResult::Halt
    } else {
        match s.prog[s.ip] {
            Instruction::Increment => VmStepResult::Next(
                VmState {
                    tape: s.tape.update(s.dp, (((s.tape[s.dp] as int) + 1) % 128) as u8),
                    ip: s.ip + 1,
                    ..s
                },
                None,
            ),
            Instruction::Decrement => VmStepResult::Next(
                VmState {
                    tape: s.tape.update(s.dp, (((s.tape[s.dp] as int) + 127) % 128) as u8),
                    ip: s.ip + 1,
                    ..s
                },
                None,
            ),
            Instruction::Left => VmStepResult::Next(
                VmState { dp: if s.dp > 0 { s.dp - 1 } else { 0 }, ip: s.ip + 1, ..s },
                None,
            ),
            Instruction::Right => VmStepResult::Next(
                VmState {
                    dp: s.dp + 1,
                    tape: if s.dp + 1 >= s.tape.len() { s.tape.push(0) } else { s.tape },
                    ip: s.ip + 1,
                    ..s
                },
                None,
            ),
            Instruction::Open => if s.tape[s.dp] == 0 {
                match spec_forward_match(s.prog.skip(s.ip + 1)) {
                    Some(k) => VmStepResult::Next(VmState { ip: s.ip + 1 + k + 1, ..s }, None),
                    None => VmStepResult::Abort(BfError::UnmatchedBracket),
                }
            } else {
                VmStepResult::Next(VmState { ip: s.ip + 1, ..s }, None)
            },
            Instruction::Close => if s.tape[s.dp] != 0 {
                match spec_backward_match(s.prog.take(s.ip)) {
                    Some(k) => VmStepResult::Next(VmState { ip: k + 1, ..s }, None),
                    None => VmStepResult::Abort(BfError::UnmatchedBracket),
                }
            } else {
                VmStepResult::Next(VmState { ip: s.ip + 1, ..s }, None)
            },
            Instruction::Input => VmStepResult::Await,
            Instruction::Output => VmStepResult::Next(
                VmState { ip: s.ip + 1, ..s },
                Some(s.tape[s.dp]),
            ),
            Instruction::Break => VmStepResult::Next(VmState { ip: s.ip + 1, ..s }, None),
        }
    }
}

/// The state after one input byte is stored into the current cell.
pub open spec fn vm_supply(s: VmState, b: u8) -> VmState {
    VmState { tape: s.tape.update(s.dp, b), ip: s.ip + 1, ..s }
}

/// What a step reported to the caller.
#[derive(Clone, Copy, Debug, PartialEq, Eq, Structural)]
pub enum StepEvent {
    /// The program has run to its end; the machine will not move again.
    Halted,
    /// This instruction was dispatched and the pointers advanced.
    Executed(Instruction),
    /// The current instruction is `Input`: feed a byte with `supply_input`.
    AwaitingInput,
}

/// The executable machine: the resolved program and the mutable execution
/// state.
pub struct Machine {
    instructions: Vec<Instruction>,
    ip: usize,
    dp: usize,
    tape: Vec<u8>,
}

impl Machine {
    /// The mathematical state this machine is in.
    pub closed spec fn state(&self) -> VmState {
        VmState {
            prog: self.instructions@,
            ip: self.ip as int,
            dp: self.dp as int,
            tape: self.tape@,
        }
    }

    /// The machine's invariant: its state is well-formed.
    pub open spec fn inv(&self) -> bool {
        vm_wf(self.state())
    }

    /// Builds a machine over `instructions`, in the initial state.
    pub fn new(instructions: Vec<Instruction>) -> (m: Machine)
        ensures
            m.inv(),
            m.state() == init_state(instructions@),
    {
        let mut tape: Vec<u8> = Vec::new();
        tape.push(0);
        let m = Machine { instructions, ip: 0, dp: 0, tape };
        proof {
            assert(m.state().tape =~= seq![0u8]);
            assert(m.state() =~= init_state(m.state().prog));
        }
        m
    }

    /// True exactly when the instruction pointer has reached the program's
    /// end.
    pub fn halted(&self) -> (b: bool)
        ensures
            b == (vm_step(self.state()) is Halt),
    {
        self.ip >= self.instructions.len()
    }

    /// True exactly when the machine waits on an `Input` instruction.
    pub fn awaiting_input(&self) -> (b: bool)
        ensures
            b == (vm_step(self.state()) is Await),
    {
        if self.ip < self.instructions.len() {
            match self.instructions[self.ip] {
                Instruction::Input => true,
                _ => false,
            }
        } else {
            false
        }
    }

    /// The value of the cell under the data pointer.
    pub fn current_cell(&self) -> (v: u8)
        requires
            self.inv(),
        ensures
            v == self.state().tape[self.state().dp],
    {
        self.tape[self.dp]
    }

    /// The whole tape, for callers that display it.
    pub fn cells(&self) -> (t: &Vec<u8>)
        ensures
            t@ == self.state().tape,
    {
        &self.tape
    }

    /// Dispatches one instruction.
    ///
    /// The machine moves exactly as [`vm_step`] says: `Executed` reports the
    /// dispatched instruction and the state becomes the transition's
    /// successor; `Halted` and `AwaitingInput` leave the state unchanged; an
    /// unmatched loop boundary reports `UnmatchedBracket` and leaves the
    /// state unchanged.
    pub fn step(&mut self) -> (r: Result<StepEvent, BfError>)
        requires
            old(self).inv(),
        ensures
            final(self).inv(),
            match r {
                Ok(StepEvent::Halted) => vm_step(old(self).state()) is Halt && final(self).state()
                    == old(self).state(),
                Ok(StepEvent::Executed(ins)) => {
                    &&& ins == old(self).state().prog[old(self).state().ip]
                    &&& vm_step(old(self).state()) matches VmStepResult::Next(s2, _)
                        && final(self).state() == s2
                },
                Ok(StepEvent::AwaitingInput) => vm_step(old(self).state()) is Await
                    && final(self).state() == old(self).state(),
                Err(e) => vm_step(old(self).state()) == VmStepResult::Abort(e)
                    && final(self).state() == old(self).state(),
            },
    {
        if self.ip >= self.instructions.len() {
            return Ok(StepEvent::Halted);
        }
        let ins = self.instructions[self.ip];
        match ins {
            Instruction::Increment => {
                let v = self.tape[self.dp];
                let nv: u8 = if v == 127 {
                    0
                } else {
                    v + 1
                };
                self.tape[self.dp] = nv;
                self.ip = self.ip + 1;
                proof {
                    assert(vm_step(old(self).state()) matches VmStepResult::Next(s2, _)
                        && self.state() == s2);
                }
                Ok(StepEvent::Executed(ins))
            },
            Instruction::Decrement => {
                let v = self.tape[self.dp];
                let nv: u8 = if v == 0 {
                    127
                } else {
                    v - 1
                };
                self.tape[self.dp] = nv;
                self.ip = self.ip + 1;
                proof {
                    assert(vm_step(old(self).state()) matches VmStepResult::Next(s2, _)
                        && self.state() == s2);
                }
                Ok(StepEvent::Executed(ins))
            },
            Instruction::Left => {
                if self.dp > 0 {
                    self.dp = self.dp - 1;
                }
                self.ip = self.ip + 1;
                Ok(StepEvent::Executed(ins))
            },
            Instruction::Right => {
                let len = self.tape.len();
                proof {
                    assert(self.dp < len);
                }
                self.dp = self.dp + 1;
                if self.dp >= self.tape.len() {
                    self.tape.push(0);
                }
                self.ip = self.ip + 1;
                Ok(StepEvent::Executed(ins))
            },
            Instruction::Open => {
                if self.tape[self.dp] == 0 {
                    let rest = vstd::slice::slice_subrange(
                        self.instructions.as_slice(),
                        self.ip + 1,
                        self.instructions.len(),
                    );
                    proof {
                        assert(rest@ =~= old(self).state().prog.skip(old(self).state().ip + 1));
                        lemma_forward_match_characterization(rest@);
                    }
                    match find_matching_bracket(rest, true) {
                        Ok(k) => {
                            self.ip = self.ip + 1 + k + 1;
                            Ok(StepEvent::Executed(ins))
                        },
                        Err(e) => Err(e),
                    }
                } else {
                    self.ip = self.ip + 1;
                    Ok(StepEvent::Executed(ins))
                }
            },
            Instruction::Close => {
                if self.tape[self.dp] != 0 {
                    let rest = vstd::slice::slice_subrange(
                        self.instructions.as_slice(),
                        0,
                        self.ip,
                    );
                    proof {
                        assert(rest@ =~= old(self).state().prog.take(old(self).state().ip));
                        lemma_backward_match_characterization(rest@);
                    }
                    match find_matching_bracket(rest, false) {
                        Ok(k) => {
                            self.ip = k + 1;
                            Ok(StepEvent::Executed(ins))
                        },
                        Err(e) => Err(e),
                    }
                } else {
                    self.ip = self.ip + 1;
                    Ok(StepEvent::Executed(ins))
                }
            },
            Instruction::Input => Ok(StepEvent::AwaitingInput),
            Instruction::Output => {
                self.ip = self.ip + 1;
                Ok(StepEvent::Executed(ins))
            },
            Instruction::Break => {
                self.ip = self.ip + 1;
                Ok(StepEvent::Executed(ins))
            },
        }
    }

    /// Stores one input byte into the current cell and moves on.
    ///
    /// Call only while the machine awaits input. A byte over 127 is rejected
    /// with `NonAsciiInput` and the machine does not move.
    pub fn supply_input(&mut self, b: u8) -> (r: Result<(), BfError>)
        requires
            old(self).inv(),
            vm_step(old(self).state()) is Await,
        ensures
            final(self).inv(),
            match r {
                Ok(u) => b <= 127 && final(self).state() == vm_supply(old(self).state(), b),
                Err(e) => b > 127 && e == BfError::NonAsciiInput
                    && final(self).state() == old(self).state(),
            },
    {
        if b > 127 {
            return Err(BfError::NonAsciiInput);
        }
        let n = self.instructions.len();
        proof {
            assert(self.ip < n);
        }
        self.tape[self.dp] = b;
        self.ip = self.ip + 1;
        Ok(())
    }
}

/// What a bounded run yields: the final state, the bytes written by
/// `Output` instructions in order, and whether the program ran to its end
/// (rather than out of steps).
pub enum VmRun {
    Stopped(VmState, Seq<u8>, bool),
    Failed(BfError),
}

/// Prefixes already-written output bytes onto a run's result.
pub open spec fn vm_run_prepend(outs: Seq<u8>, r: VmRun) -> VmRun {
    match r {
        VmRun::Stopped(s, o, h) => VmRun::Stopped(s, outs + o, h),
        VmRun::Failed(e) => VmRun::Failed(e),
    }
}

/// Executes up to `fuel` steps from `s`. An `Input` instruction takes the
/// next byte of `inputs`, or 0 once they are exhausted; a byte over 127
/// fails with `NonAsciiInput`, and an unmatched loop boundary with
/// `UnmatchedBracket`.
pub open spec fn vm_run(s: VmState, inputs: Seq<u8>, fuel: nat) -> VmRun
    decreases fuel,
{
    if fuel == 0 {
        VmRun::Stopped(s, Seq::empty(), false)
    } else {
        match vm_step(s) {
            VmStepResult::Halt => VmRun::Stopped(s, Seq::empty(), true),
            VmStepResult::Abort(e) => VmRun::Failed(e),
            VmStepResult::Next(s2, out) => {
                let tail = vm_run(s2, inputs, (fuel - 1) as nat);
                match out {
                    Some(b) => vm_run_prepend(seq![b], tail),
                    None => tail,
                }
            },
            VmStepResult::Await => {
                let b = if inputs.len() > 0 {
                    inputs[0]
                } else {
                    0u8
                };
                if b > 127 {
                    VmRun::Failed(BfError::NonAsciiInput)
                } else {
                    let rest = if inputs.len() > 0 {
                        inputs.drop_first()
                    } else {
                        inputs
                    };
                    vm_run(vm_supply(s, b), rest, (fuel - 1) as nat)
                }
            },
        }
    }
}

proof fn lemma_prepend_assoc(a: Seq<u8>, b: Seq<u8>, r: VmRun)
    ensures
        vm_run_prepend(a, vm_run_prepend(b, r)) == vm_run_prepend(a + b, r),
{
    match r {
        VmRun::Stopped(s, o, h) => {
            assert(a + (b + o) =~= (a + b) + o);
        },
        VmRun::Failed(e) => (),
    }
}

/// The outcome of a bounded batch run.
#[derive(Debug)]
pub struct RunOutcome {
    /// The bytes the program wrote, in order.
    pub output: Vec<u8>,
    /// True when the program ran to its end within the step bound.
    pub halted: bool,
}

/// Runs `instructions` from the initial state for at most `fuel` steps,
/// reading `Input` bytes from `inputs` (0 once they are exhausted) and
/// collecting `Output` bytes.
///
/// The result is exactly what the mathematical run [`vm_run`] yields on the
/// same program, inputs and step bound.
pub fn run_program(instructions: Vec<Instruction>, inputs: &Vec<u8>, fuel: u64) -> (r: Result<
    RunOutcome,
    BfError,
>)
    ensures
        match r {
            Ok(out) => vm_run(init_state(instructions@), inputs@, fuel as nat) matches
                VmRun::Stopped(s, outs, h) && out.output@ == outs && out.halted == h,
            Err(e) => vm_run(init_state(instructions@), inputs@, fuel as nat) == VmRun::Failed(e),
        },
{
    let ghost prog = instructions@;
    let mut m = Machine::new(instructions);
    let mut output: Vec<u8> = Vec::new();
    let mut in_idx: usize = 0;
    let mut steps: u64 = 0;
    proof {
        assert(inputs@.skip(0) =~= inputs@);
        match vm_run(init_state(prog), inputs@, fuel as nat) {
            VmRun::Stopped(s, o, h) => {
                assert(Seq::<u8>::empty() + o =~= o);
            },
            VmRun::Failed(_) => (),
        }
        assert(output@ =~= Seq::<u8>::empty());
    }
    while steps < fuel
        invariant
            prog == instructions@,
            m.inv(),
            steps <= fuel,
            in_idx <= inputs@.len(),
            vm_run_prepend(
                output@,
                vm_run(m.state(), inputs@.skip(in_idx as int), (fuel - steps) as nat),
            ) == vm_run(init_state(prog), inputs@, fuel as nat),
        decreases fuel - steps,
    {
        let ghost pre = m.state();
        let ghost rest = inputs@.skip(in_idx as int);
        let ghost f = (fuel - steps) as nat;
        match m.step() {
            Ok(StepEvent::Halted) => {
                proof {
                    assert(vm_run(pre, rest, f) == VmRun::Stopped(pre, Seq::<u8>::empty(), true));
                    assert(output@ + Seq::<u8>::empty() =~= output@);
                }
                return Ok(RunOutcome { output, halted: true });
            },
            Ok(StepEvent::Executed(ins)) => {
                match ins {
                    Instruction::Output => {
                        let b = m.current_cell();
                        let ghost out_pre = output@;
                        output.push(b);
                        proof {
                            match vm_step(pre) {
                                VmStepResult::Next(s2, out) => {
                                    let tail = vm_run(s2, rest, (f - 1) as nat);
                                    assert(out == Some(pre.tape[pre.dp]));
                                    assert(b == pre.tape[pre.dp]);
                                    assert(vm_run(pre, rest, f) == vm_run_prepend(seq![b], tail));
                                    lemma_prepend_assoc(out_pre, seq![b], tail);
                                    assert(output@ =~= out_pre + seq![b]);
                                },
                                _ => (),
                            }
                        }
                    },
                    _ => (),
                }
                proof {
                    match vm_step(pre) {
                        VmStepResult::Next(s2, out) => {
                            assert(m.state() == s2);
                        },
                        _ => (),
                    }
                }
                steps = steps + 1;
            },
            Ok(StepEvent::AwaitingInput) => {
                let b: u8 = if in_idx < inputs.len() {
                    inputs[in_idx]
                } else {
                    0
                };
                match m.supply_input(b) {
                    Ok(_) => {
                        proof {
                            if rest.len() > 0 {
                                assert(rest[0] == inputs@[in_idx as int]);
                                assert(rest.drop_first() =~= inputs@.skip(in_idx as int + 1));
                            }
                        }
                        if in_idx < inputs.len() {
                            in_idx = in_idx + 1;
                        }
                        steps = steps + 1;
                    },
                    Err(e) => {
                        proof {
                            assert(rest.len() > 0 && rest[0] == b);
                            assert(vm_run(pre, rest, f) == VmRun::Failed(e));
                        }
                        return Err(e);
                    },
                }
            },
            Err(e) => {
                proof {
                    assert(vm_run(pre, rest, f) == VmRun::Failed(e));
                }
                return Err(e);
            },
        }
    }
    proof {
        assert(vm_run(m.state(), inputs@.skip(in_idx as int), 0) == VmRun::Stopped(
            m.state(),
            Seq::<u8>::empty(),
            false,
        ));
        assert(output@ + Seq::<u8>::empty() =~= output@);
    }
    Ok(RunOutcome { output, halted: false })
}

/// Execution is deterministic: the run's outcome — every output byte and
/// whether it halted — is a function of the program, the input bytes and the
/// step bound alone, so repeated runs on the same inputs are identical.
pub proof fn lemma_run_deterministic(
    prog: Seq<Instruction>,
    inputs: Seq<u8>,
    fuel: nat,
    r1: VmRun,
    r2: VmRun,
)
    requires
        r1 == vm_run(init_state(prog), inputs, fuel),
        r2 == vm_run(init_state(prog), inputs, fuel),
    ensures
        r1 == r2,
{
}

/// Every dispatched step keeps the machine well-formed: the instruction
/// pointer stays within the program, the data pointer never leaves the tape
/// — in particular it never goes negative — and every cell stays in
/// `[0, 127]`.
pub proof fn lemma_step_preserves_wf(s: VmState)
    requires
        vm_wf(s),
    ensures
        vm_step(s) matches VmStepResult::Next(s2, _) ==> vm_wf(s2),
{
    if 0 <= s.ip < s.prog.len() {
        match s.prog[s.ip] {
            Instruction::Open => {
                if s.tape[s.dp] == 0 {
                    lemma_forward_match_characterization(s.prog.skip(s.ip + 1));
                }
            },
            Instruction::Close => {
                if s.tape[s.dp] != 0 {
                    lemma_backward_match_characterization(s.prog.take(s.ip));
                }
            },
            _ => (),
        }
    }
}

/// The data pointer clamps at zero: a `Left` dispatched with the pointer at
/// position 0 leaves it at 0, so it can never go negative.
pub proof fn lemma_left_clamps_at_zero(s: VmState)
    requires
        0 <= s.ip < s.prog.len(),
        s.prog[s.ip] == Instruction::Left,
        s.dp == 0,
    ensures
        vm_step(s) matches VmStepResult::Next(s2, _) && s2.dp == 0,
{
}

/// Cell arithmetic is modulo 128: `Increment` adds one and wraps 127 to 0,
/// `Decrement` subtracts one and wraps 0 to 127.
pub proof fn lemma_cell_wraps_mod_128(s: VmState)
    requires
        vm_wf(s),
        0 <= s.ip < s.prog.len(),
    ensures
        s.prog[s.ip] == Instruction::Increment ==> (vm_step(s) matches VmStepResult::Next(s2, _)
            && s2.tape[s.dp] == if s.tape[s.dp] == 127 {
                0
            } else {
                s.tape[s.dp] + 1
            }),
        s.prog[s.ip] == Instruction::Decrement ==> (vm_step(s) matches VmStepResult::Next(s2, _)
            && s2.tape[s.dp] == if s.tape[s.dp] == 0 {
                127
            } else {
                s.tape[s.dp] - 1
            }),
{
}

} // verus!
