use bf_rs::debug_actions;
use bf_rs::parse_string;
use bf_rs::run_program;
use bf_rs::BfError;
use bf_rs::DebugMode;
use bf_rs::Instruction;
use bf_rs::Machine;
use bf_rs::StepEvent;

#[test]
fn decrement_wraps_0_to_127() {
    let r = run_program(parse_string("-.", false), &vec![], 100).unwrap();
    assert!(r.halted);
    assert_eq!(r.output, vec![127]);
}

#[test]
fn increment_wraps_127_to_0() {
    let r = run_program(parse_string("-+.", false), &vec![], 100).unwrap();
    assert!(r.halted);
    assert_eq!(r.output, vec![0]);
    let mut long = "+".repeat(128);
    long.push('.');
    let r2 = run_program(parse_string(&long, false), &vec![], 1000).unwrap();
    assert_eq!(r2.output, vec![0]);
}

#[test]
fn left_clamps_at_zero() {
    // The increment lands in cell 0; the moves left stay on cell 0.
    let r = run_program(parse_string("+<<<.", false), &vec![], 100).unwrap();
    assert!(r.halted);
    assert_eq!(r.output, vec![1]);
}

#[test]
fn tape_grows_to_the_right() {
    let r = run_program(parse_string(">>>+.<.", false), &vec![], 100).unwrap();
    assert!(r.halted);
    assert_eq!(r.output, vec![1, 0]);
}

#[test]
fn loops_run_to_completion() {
    // cell0 = 2; each pass adds 3 to cell1; prints 6.
    let r = run_program(parse_string("++[>+++<-]>.", false), &vec![], 1000).unwrap();
    assert!(r.halted);
    assert_eq!(r.output, vec![6]);
}

#[test]
fn input_is_echoed() {
    let r = run_program(parse_string(",.,.", false), &vec![65, 66], 100).unwrap();
    assert!(r.halted);
    assert_eq!(r.output, vec![65, 66]);
}

#[test]
fn exhausted_input_reads_zero() {
    let r = run_program(parse_string(",.", false), &vec![], 100).unwrap();
    assert!(r.halted);
    assert_eq!(r.output, vec![0]);
}

#[test]
fn non_ascii_input_rejected() {
    assert_eq!(
        run_program(parse_string(",", false), &vec![200], 100).unwrap_err(),
        BfError::NonAsciiInput
    );
}

#[test]
fn unmatched_open_bracket_at_runtime() {
    assert_eq!(
        run_program(parse_string("[", false), &vec![], 100).unwrap_err(),
        BfError::UnmatchedBracket
    );
}

#[test]
fn unmatched_close_bracket_at_runtime() {
    assert_eq!(
        run_program(parse_string("+]", false), &vec![], 100).unwrap_err(),
        BfError::UnmatchedBracket
    );
}

#[test]
fn close_bracket_on_zero_cell_falls_through() {
    // The cell is zero when `]` is reached, so no backward jump happens.
    let r = run_program(parse_string("]", false), &vec![], 100).unwrap();
    assert!(r.halted);
    assert_eq!(r.output, vec![]);
}

#[test]
fn out_of_fuel_reports_not_halted() {
    let r = run_program(parse_string("+[]", false), &vec![], 50).unwrap();
    assert!(!r.halted);
}

#[test]
fn repeated_runs_are_identical() {
    let prog = "++[>+++<-]>.,.";
    let inputs = vec![42u8];
    let r1 = run_program(parse_string(prog, false), &inputs, 10000).unwrap();
    let r2 = run_program(parse_string(prog, false), &inputs, 10000).unwrap();
    assert_eq!(r1.output, r2.output);
    assert_eq!(r1.halted, r2.halted);
}

#[test]
fn machine_steps_one_instruction_at_a_time() {
    let mut m = Machine::new(parse_string("+,.", false));
    assert!(!m.halted());
    assert_eq!(m.step(), Ok(StepEvent::Executed(Instruction::Increment)));
    assert_eq!(m.current_cell(), 1);
    assert_eq!(m.step(), Ok(StepEvent::AwaitingInput));
    assert!(m.awaiting_input());
    assert_eq!(m.supply_input(200), Err(BfError::NonAsciiInput));
    assert_eq!(m.supply_input(7), Ok(()));
    assert_eq!(m.step(), Ok(StepEvent::Executed(Instruction::Output)));
    assert_eq!(m.current_cell(), 7);
    assert_eq!(m.cells(), &vec![7]);
    assert_eq!(m.step(), Ok(StepEvent::Halted));
    assert!(m.halted());
}

#[test]
fn breakpoints_execute_without_tape_effect() {
    let r = run_program(parse_string("+@+.", true), &vec![], 100).unwrap();
    assert!(r.halted);
    assert_eq!(r.output, vec![2]);
}

#[test]
fn errors_describe_their_cause() {
    assert_eq!(
        BfError::UnmatchedBracket.describe(),
        "all brackets must have matching brackets"
    );
    assert_eq!(
        BfError::RecursiveMacroReference.describe(),
        "recursive macros are not allowed"
    );
    assert_eq!(
        BfError::NonAsciiInput.describe(),
        "input must be an ASCII character"
    );
}

#[test]
fn debug_actions_follow_mode_and_breakpoints() {
    assert_eq!(
        debug_actions(&DebugMode::Off, &Instruction::Increment),
        (false, false)
    );
    assert_eq!(
        debug_actions(&DebugMode::Verbose, &Instruction::Increment),
        (true, false)
    );
    assert_eq!(
        debug_actions(&DebugMode::Step, &Instruction::Increment),
        (true, true)
    );
    assert_eq!(
        debug_actions(&DebugMode::Off, &Instruction::Break),
        (false, true)
    );
    assert_eq!(
        debug_actions(&DebugMode::Verbose, &Instruction::Break),
        (false, true)
    );
    assert_eq!(
        debug_actions(&DebugMode::Step, &Instruction::Break),
        (false, true)
    );
}
