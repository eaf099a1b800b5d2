use bf::bf::{
    run_program, BrainfuckError, BrainfuckInterpreter, BrainfuckVM, ParseError, RunStatus,
    RuntimeError, TAPE_LEN,
};
use bf::io::{BrainfuckIo, InMemoryIO, StdIO};

fn run_with(sample: &str, inps: Vec<char>) -> (Result<RunStatus, RuntimeError>, InMemoryIO) {
    let mut io = InMemoryIO::new_with_inputs(inps);
    let mut interpreter = BrainfuckInterpreter::new(sample).expect("balanced program");
    let r = interpreter.run(&mut io, u64::MAX);
    (r, io)
}

#[test]
fn comment_only_text_is_empty_program() {
    let interpreter = BrainfuckInterpreter::new("hello world\n # no code here!").unwrap();
    assert_eq!(interpreter.program_len(), 0);
    let (r, io) = run_with("hello world\n # no code here!", vec!['x']);
    assert_eq!(r, Ok(RunStatus::Halted));
    assert!(io.output.is_empty());
    assert_eq!(io.inputs, vec!['x']);
}

#[test]
fn comments_between_instructions_are_skipped() {
    let interpreter = BrainfuckInterpreter::new("+ a > b - c").unwrap();
    assert_eq!(interpreter.program_len(), 3);
}

#[test]
fn unequal_bracket_counts_are_rejected() {
    for text in ["[", "]", "[[]", "[]]", "[[", "]]", "+[>[-]"] {
        assert!(matches!(
            BrainfuckInterpreter::new(text),
            Err(ParseError::UnbalancedBrackets)
        ));
    }
}

#[test]
fn closing_before_opening_is_rejected() {
    assert!(matches!(
        BrainfuckInterpreter::new("]["),
        Err(ParseError::UnbalancedBrackets)
    ));
}

#[test]
fn malformed_programs_fail_construction() {
    assert!(matches!(
        BrainfuckInterpreter::new("[[]"),
        Err(ParseError::UnbalancedBrackets)
    ));
    assert!(matches!(
        BrainfuckInterpreter::new("[]]"),
        Err(ParseError::UnbalancedBrackets)
    ));
}

#[test]
fn nested_brackets_are_accepted() {
    assert!(BrainfuckInterpreter::new("[[][[]]]").is_ok());
}

#[test]
fn increments_wrap_after_256() {
    let program = format!("{}.", "+".repeat(256));
    let (r, io) = run_with(&program, vec![]);
    assert_eq!(r, Ok(RunStatus::Halted));
    let (_, fresh) = run_with(".", vec![]);
    assert_eq!(io.output, fresh.output);
    assert_eq!(io.output, vec!['\0']);
}

#[test]
fn decrement_of_zero_gives_255() {
    let (r, io) = run_with("-.", vec![]);
    assert_eq!(r, Ok(RunStatus::Halted));
    assert_eq!(io.output, vec![255u8 as char]);
}

#[test]
fn loop_multiplies_nine_by_ten() {
    let (r, io) = run_with("+++++++++[>++++++++++<-]>.", vec![]);
    assert_eq!(r, Ok(RunStatus::Halted));
    assert_eq!(io.output, vec![90u8 as char]);
}

#[test]
fn loop_multiplies_eight_by_ten() {
    let (r, io) = run_with("++++++++[>++++++++++<-]>.", vec![]);
    assert_eq!(r, Ok(RunStatus::Halted));
    assert_eq!(io.output, vec!['P']);
}

#[test]
fn input_is_consumed_once_and_cleared() {
    let (r, io) = run_with(",[-]", vec!['a', 'b']);
    assert_eq!(r, Ok(RunStatus::Halted));
    assert!(io.output.is_empty());
    assert_eq!(io.inputs, vec!['b']);
}

#[test]
fn input_is_read_first_in_first_out() {
    let (r, io) = run_with(",.,.,.", vec!['x', 'y', 'z']);
    assert_eq!(r, Ok(RunStatus::Halted));
    assert_eq!(io.output, vec!['x', 'y', 'z']);
}

#[test]
fn input_is_truncated_to_a_byte() {
    let (r, io) = run_with(",.", vec!['\u{141}']);
    assert_eq!(r, Ok(RunStatus::Halted));
    assert_eq!(io.output, vec!['A']);
}

#[test]
fn last_cell_is_reachable() {
    let program = format!("{}+.", ">".repeat(TAPE_LEN - 1));
    let mut io = InMemoryIO::default();
    let mut interpreter = BrainfuckInterpreter::new(&program).unwrap();
    assert_eq!(interpreter.run(&mut io, u64::MAX), Ok(RunStatus::Halted));
    assert_eq!(io.output, vec![1u8 as char]);
    assert_eq!(interpreter.vm().cell_id(), TAPE_LEN - 1);
    assert_eq!(interpreter.vm().cell(TAPE_LEN - 1), 1);
}

#[test]
fn moving_past_the_last_cell_overruns() {
    let program = format!("{}+", ">".repeat(TAPE_LEN));
    let mut io = InMemoryIO::default();
    let mut interpreter = BrainfuckInterpreter::new(&program).unwrap();
    assert_eq!(interpreter.run(&mut io, u64::MAX), Err(RuntimeError::TapeOverrun));
    assert_eq!(interpreter.vm().cell_id(), TAPE_LEN - 1);
    assert_eq!(interpreter.vm().ip(), TAPE_LEN - 1);
}

#[test]
fn moving_left_of_the_origin_overruns() {
    let mut io = InMemoryIO::default();
    let mut interpreter = BrainfuckInterpreter::new("+<").unwrap();
    assert_eq!(interpreter.run(&mut io, u64::MAX), Err(RuntimeError::TapeOverrun));
    assert_eq!(interpreter.vm().ip(), 1);
    assert_eq!(interpreter.vm().cell(0), 1);
}

#[test]
fn reading_without_input_fails() {
    let mut io = InMemoryIO::default();
    let mut interpreter = BrainfuckInterpreter::new("+,.").unwrap();
    assert_eq!(interpreter.run(&mut io, u64::MAX), Err(RuntimeError::InputExhausted));
    assert_eq!(interpreter.vm().ip(), 1);
    assert!(io.output.is_empty());
}

#[test]
fn console_has_no_input() {
    let mut io = StdIO::new();
    let mut interpreter = BrainfuckInterpreter::new(",").unwrap();
    assert_eq!(interpreter.run(&mut io, u64::MAX), Err(RuntimeError::InputExhausted));
}

#[test]
fn console_runs_program_without_output() {
    let mut io = StdIO::new();
    let mut interpreter = BrainfuckInterpreter::new("++[-]").unwrap();
    assert_eq!(interpreter.run(&mut io, u64::MAX), Ok(RunStatus::Halted));
}

#[test]
fn step_budget_pauses_and_resumes() {
    let mut io = InMemoryIO::default();
    let mut interpreter = BrainfuckInterpreter::new("+++.").unwrap();
    assert_eq!(interpreter.run(&mut io, 2), Ok(RunStatus::OutOfSteps));
    assert_eq!(interpreter.vm().ip(), 2);
    assert!(io.output.is_empty());
    assert_eq!(interpreter.run(&mut io, 2), Ok(RunStatus::Halted));
    assert_eq!(io.output, vec![3u8 as char]);
}

#[test]
fn endless_loop_runs_until_budget() {
    let mut io = InMemoryIO::default();
    let mut interpreter = BrainfuckInterpreter::new("+[]").unwrap();
    assert_eq!(interpreter.run(&mut io, 1000), Ok(RunStatus::OutOfSteps));
    assert_eq!(interpreter.run(&mut io, 1000), Ok(RunStatus::OutOfSteps));
}

#[test]
fn skipped_loop_lands_after_its_end() {
    let (r, io) = run_with("[.]+.", vec![]);
    assert_eq!(r, Ok(RunStatus::Halted));
    assert_eq!(io.output, vec![1u8 as char]);
}

#[test]
fn building_twice_gives_the_same_program() {
    let text = "++[>+<-]>.";
    let a = BrainfuckInterpreter::new(text).unwrap();
    let b = BrainfuckInterpreter::new(text).unwrap();
    assert_eq!(a.program_len(), b.program_len());
    let (_, io_a) = run_with(text, vec![]);
    let (_, io_b) = run_with(text, vec![]);
    assert_eq!(io_a.output, io_b.output);
}

#[test]
fn fresh_vm_is_zeroed() {
    let vm = BrainfuckVM::new();
    assert_eq!(vm.cell_id(), 0);
    assert_eq!(vm.ip(), 0);
    assert_eq!(vm.cell(0), 0);
    assert_eq!(vm.cell(TAPE_LEN - 1), 0);
    let d = BrainfuckVM::default();
    assert_eq!(d.cell_id(), 0);
    assert_eq!(d.ip(), 0);
}

#[test]
fn run_program_reports_each_error() {
    let mut io = InMemoryIO::default();
    assert_eq!(
        run_program("[", &mut io, u64::MAX),
        Err(BrainfuckError::Parse(ParseError::UnbalancedBrackets))
    );
    assert_eq!(
        run_program("<", &mut io, u64::MAX),
        Err(BrainfuckError::Runtime(RuntimeError::TapeOverrun))
    );
    assert_eq!(
        run_program(",", &mut io, u64::MAX),
        Err(BrainfuckError::Runtime(RuntimeError::InputExhausted))
    );
    assert_eq!(run_program("+[]", &mut io, 10), Ok(RunStatus::OutOfSteps));
}

#[test]
fn new_with_inputs_starts_empty() {
    let io = InMemoryIO::new_with_inputs(vec!['a']);
    assert!(io.output.is_empty());
    assert_eq!(io.inputs, vec!['a']);
}

#[test]
fn in_memory_input_is_first_in_first_out() {
    let mut io = InMemoryIO::new_with_inputs(vec!['a', 'b', 'c']);
    assert_eq!(io.next_input(), Some(b'a'));
    assert_eq!(io.inputs, vec!['b', 'c']);
    assert!(io.output.is_empty());
}

#[test]
fn in_memory_input_truncates_to_a_byte() {
    let mut io = InMemoryIO::new_with_inputs(vec!['\u{15A}']);
    assert_eq!(io.next_input(), Some(90));
    assert!(io.inputs.is_empty());
}

#[test]
fn in_memory_empty_input_is_left_alone() {
    let mut io = InMemoryIO::new_with_inputs(vec![]);
    io.output_char(b'x');
    assert_eq!(io.next_input(), None);
    assert!(io.inputs.is_empty());
    assert_eq!(io.output, vec!['x']);
}

#[test]
fn in_memory_output_appends_the_character() {
    let mut io = InMemoryIO::new_with_inputs(vec!['q']);
    io.output_char(90);
    io.output_char(255);
    assert_eq!(io.output, vec!['Z', 255u8 as char]);
    assert_eq!(io.inputs, vec!['q']);
}

#[test]
fn output_before_exhausted_input_is_kept() {
    let (r, io) = run_with(".,", vec![]);
    assert_eq!(r, Err(RuntimeError::InputExhausted));
    assert_eq!(io.output, vec![0u8 as char]);
}

#[test]
fn increments_prefix_changes_no_run() {
    for q in ["++[>+++<-]>.", ",.-.", "<", "[.]+.,"] {
        let (r_alone, io_alone) = run_with(q, vec!['k']);
        let prefixed = format!("{}{}", "+".repeat(256), q);
        let (r_prefixed, io_prefixed) = run_with(&prefixed, vec!['k']);
        assert_eq!(r_alone, r_prefixed);
        assert_eq!(io_alone.output, io_prefixed.output);
        assert_eq!(io_alone.inputs, io_prefixed.inputs);
    }
}
