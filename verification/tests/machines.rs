use utmmmmm::tm::Label;
use utmmmmm::tm::{
    run_tm, run_until_enters_state, HaltReason, RunUntilResult, RunningTuringMachine, TuringMachineSpec,
};
use utmmmmm::toy_machines::{
    accept_immediately_spec, check_palindrome_spec, double_x_spec, flip_bits_spec, reject_immediately_spec,
    write1s_forever_spec, AccImmSymbol, CheckPalindromeState, CheckPalindromeSymbol, DoubleXSymbol,
    FlipBitsState, FlipBitsSymbol, Letter, RejImmSymbol, Write1sSymbol,
};

fn run_guest_direct<'a, Spec: TuringMachineSpec>(
    spec: &'a Spec,
    input: &[Spec::Symbol],
    max_steps: usize,
) -> (&'static str, RunningTuringMachine<'a, Spec>) {
    let mut tm = RunningTuringMachine::new(spec);
    tm.tape = input.to_vec();
    if tm.tape.is_empty() {
        tm.tape.push(spec.blank());
    }
    let result = run_tm(&mut tm, max_steps);
    let status = match result {
        Ok(HaltReason::Accepted { .. }) => "accept",
        Ok(HaltReason::Rejected { .. }) => "reject",
        Err(_) => "limit",
    };
    (status, tm)
}

#[test]
fn test_accept_immediately() {
    // (Init, AccImmSymbol::One) has no rule, so it halts in the accepting state Init.
    let spec = accept_immediately_spec();
    let (status, _) = run_guest_direct(&spec, &[AccImmSymbol::One], 100);
    assert_eq!(status, "accept");
}

#[test]
fn test_reject_immediately() {
    let spec = reject_immediately_spec();
    let (status, _) = run_guest_direct(&spec, &[RejImmSymbol::One], 100);
    assert_eq!(status, "reject");
}

#[test]
fn test_flip_bits_direct() {
    let spec = flip_bits_spec();
    let (status, tm) = run_guest_direct(&spec, &[FlipBitsSymbol::Zero, FlipBitsSymbol::One], 100);
    assert_eq!(status, "accept");
    assert_eq!(tm.tape[0], FlipBitsSymbol::One);
    assert_eq!(tm.tape[1], FlipBitsSymbol::Zero);
}

#[test]
fn tests_test_flip_bits_direct() {
    let spec = flip_bits_spec();
    let (status, tm) = run_guest_direct(&spec, &[FlipBitsSymbol::Zero, FlipBitsSymbol::One], 100);
    assert_eq!(status, "accept");
    assert_eq!(tm.tape[0], FlipBitsSymbol::One);
    assert_eq!(tm.tape[1], FlipBitsSymbol::Zero);
}

fn palindrome_direct_cases() {
    let spec = check_palindrome_spec();
    let spec = &spec;

    let (status, _) = run_guest_direct(spec, &[CheckPalindromeSymbol::Letter(Letter::A), CheckPalindromeSymbol::Letter(Letter::A)], 1000);
    assert_eq!(status, "accept");

    let (status, _) = run_guest_direct(spec, &[CheckPalindromeSymbol::Letter(Letter::A), CheckPalindromeSymbol::Letter(Letter::B)], 1000);
    assert_eq!(status, "reject");

    let (status, _) = run_guest_direct(spec, &[CheckPalindromeSymbol::Letter(Letter::A), CheckPalindromeSymbol::Letter(Letter::B), CheckPalindromeSymbol::Letter(Letter::A)], 1000);
    assert_eq!(status, "accept");

    let (status, _) = run_guest_direct(spec, &[], 1000);
    assert_eq!(status, "accept");
}

#[test]
fn test_palindrome_direct() {
    palindrome_direct_cases();
}

#[test]
fn tests_test_palindrome_direct() {
    palindrome_direct_cases();
}

fn double_x_direct_case() {
    let spec = double_x_spec();
    let (status, tm) = run_guest_direct(&spec, &[DoubleXSymbol::Dollar, DoubleXSymbol::X, DoubleXSymbol::X], 1000);
    assert_eq!(status, "accept");
    assert_eq!(tm.tape[0], DoubleXSymbol::Dollar);
    assert_eq!(tm.tape[1], DoubleXSymbol::X);
    assert_eq!(tm.tape[2], DoubleXSymbol::X);
    assert_eq!(tm.tape[3], DoubleXSymbol::X);
    assert_eq!(tm.tape[4], DoubleXSymbol::X);
}

#[test]
fn test_double_x_direct() {
    double_x_direct_case();
}

#[test]
fn tests_test_double_x_direct() {
    double_x_direct_case();
}

#[test]
fn accept_immediately() {
    let spec = accept_immediately_spec();
    let mut tm = RunningTuringMachine::new(&spec);
    tm.tape = vec![AccImmSymbol::Blank];
    let result = run_tm(&mut tm, 1000);
    assert!(matches!(result, Ok(HaltReason::Accepted { .. })));
}

#[test]
fn reject_immediately() {
    let spec = reject_immediately_spec();
    let mut tm = RunningTuringMachine::new(&spec);
    tm.tape = vec![RejImmSymbol::Blank];
    let result = run_tm(&mut tm, 1000);
    assert!(matches!(result, Ok(HaltReason::Rejected { .. })));
}

#[test]
fn double_x() {
    let spec = double_x_spec();
    let mut tm = RunningTuringMachine::new(&spec);
    tm.tape = vec![DoubleXSymbol::Dollar, DoubleXSymbol::X, DoubleXSymbol::X, DoubleXSymbol::X];
    let result = run_tm(&mut tm, 1000);
    assert!(matches!(result, Ok(HaltReason::Accepted { .. })));
    while tm.tape.last() == Some(&DoubleXSymbol::Blank) {
        tm.tape.pop();
    }
    assert_eq!(tm.tape, vec![DoubleXSymbol::Dollar, DoubleXSymbol::X, DoubleXSymbol::X, DoubleXSymbol::X, DoubleXSymbol::X, DoubleXSymbol::X, DoubleXSymbol::X]);
}

fn run_palindrome(letters: &[Letter]) -> Result<HaltReason, utmmmmm::tm::PartialRunReason> {
    let spec = check_palindrome_spec();
    let mut tm = RunningTuringMachine::new(&spec);
    tm.tape = letters.iter().map(|&l| CheckPalindromeSymbol::Letter(l)).collect();
    run_tm(&mut tm, 1000)
}

#[test]
fn check_palindrome_accepts_odd_length_palindrome() {
    let result = run_palindrome(&[Letter::A, Letter::B, Letter::C, Letter::B, Letter::A]);
    assert!(matches!(result, Ok(HaltReason::Accepted { .. })));
}

#[test]
fn check_palindrome_accepts_even_length_palindrome() {
    let result = run_palindrome(&[Letter::A, Letter::B, Letter::B, Letter::A]);
    assert!(matches!(result, Ok(HaltReason::Accepted { .. })));
}

#[test]
fn check_palindrome_rejects_non_palindrome() {
    let result = run_palindrome(&[Letter::A, Letter::B, Letter::C, Letter::A]);
    assert!(matches!(result, Ok(HaltReason::Rejected { .. })));
}

#[test]
fn palindrome_with_one_letter_is_accepted() {
    let result = run_palindrome(&[Letter::Q]);
    assert!(matches!(result, Ok(HaltReason::Accepted { .. })));
}

#[test]
fn palindrome_state_list_interleaves_seek_and_check() {
    let spec = check_palindrome_spec();
    let states = spec.iter_states();
    assert_eq!(states.len(), 55);
    assert_eq!(states[0], CheckPalindromeState::Start);
    assert_eq!(states[1], CheckPalindromeState::Accept);
    assert_eq!(states[2], CheckPalindromeState::SeekL);
    assert_eq!(states[3], CheckPalindromeState::SeekR(Letter::A));
    assert_eq!(states[4], CheckPalindromeState::Check(Letter::A));
    assert_eq!(states[54], CheckPalindromeState::Check(Letter::Z));
}

#[test]
fn write1s_forever_never_halts() {
    let spec = write1s_forever_spec();
    let mut tm = RunningTuringMachine::new(&spec);
    let result = run_tm(&mut tm, 50);
    assert!(result.is_err());
    assert_eq!(tm.pos, 50);
    assert!(tm.tape.iter().take(50).all(|&s| s == Write1sSymbol::One));
}

#[test]
fn test_run_until_enters_state_flip_bits() {
    let spec = flip_bits_spec();
    let mut tm = RunningTuringMachine::new(&spec);
    tm.tape = vec![FlipBitsSymbol::Zero, FlipBitsSymbol::One, FlipBitsSymbol::Zero];
    let result = run_until_enters_state(&mut tm, FlipBitsState::Done, 1000);
    assert_eq!(result, Ok(4));
    assert_eq!(tm.state, FlipBitsState::Done);
    assert_eq!(tm.tape[0..3], [FlipBitsSymbol::One, FlipBitsSymbol::Zero, FlipBitsSymbol::One]);
}

#[test]
fn test_run_until_enters_state_step_limit() {
    let spec = flip_bits_spec();
    let mut tm = RunningTuringMachine::new(&spec);
    tm.tape = vec![FlipBitsSymbol::Zero, FlipBitsSymbol::One, FlipBitsSymbol::Zero, FlipBitsSymbol::One, FlipBitsSymbol::Zero];
    let result = run_until_enters_state(&mut tm, FlipBitsState::Done, 2);
    assert_eq!(result, Err(RunUntilResult::StepLimit));
}

#[test]
fn test_run_until_enters_state_halts_before_target() {
    let spec = flip_bits_spec();
    let mut tm = RunningTuringMachine::new(&spec);
    tm.tape = vec![FlipBitsSymbol::Zero];
    let result = run_until_enters_state(&mut tm, FlipBitsState::Flip, 1000);
    assert_eq!(result, Ok(1));
}

#[test]
fn test_run_until_enters_state_halts_in_non_target() {
    let spec = flip_bits_spec();
    let mut tm = RunningTuringMachine::new(&spec);
    tm.tape = vec![FlipBitsSymbol::Blank];
    let result = run_until_enters_state(&mut tm, FlipBitsState::Flip, 1000);
    assert_eq!(result, Err(RunUntilResult::Accepted { num_steps: 2 }));
}

#[test]
fn run_tm_counts_steps_before_halting() {
    let spec = flip_bits_spec();
    let mut tm = RunningTuringMachine::new(&spec);
    tm.tape = vec![FlipBitsSymbol::Zero, FlipBitsSymbol::One];
    // Three steps (two flips and the move onto Done), then the halt is seen.
    assert_eq!(run_tm(&mut tm, 100), Ok(HaltReason::Accepted { num_steps: 3 }));
}

#[test]
fn run_until_enters_state_reports_a_halt_before_any_step() {
    let spec = accept_immediately_spec();
    let mut tm = RunningTuringMachine::new(&spec);
    tm.tape = vec![AccImmSymbol::Blank];
    let result = run_until_enters_state(&mut tm, utmmmmm::toy_machines::AccImmState::Init, 10);
    assert_eq!(result, Err(RunUntilResult::Accepted { num_steps: 1 }));
}

#[test]
fn run_tm_extending_reads_the_extenders_cells() {
    let spec = flip_bits_spec();
    let mut tm = RunningTuringMachine::new(&spec);
    let result = utmmmmm::tm::run_tm_extending(&mut tm, 5, &mut utmmmmm::tm::FillExtender { fill: FlipBitsSymbol::One });
    assert!(result.is_err());
    assert_eq!(tm.pos, 5);
    assert_eq!(tm.tape, vec![FlipBitsSymbol::Zero; 5]);
}

#[test]
fn run_until_extending_stops_at_the_limit_when_the_tape_never_ends() {
    let spec = flip_bits_spec();
    let mut tm = RunningTuringMachine::new(&spec);
    let result = utmmmmm::tm::run_until_enters_state_extending(&mut tm, FlipBitsState::Done, 4, &mut utmmmmm::tm::FillExtender { fill: FlipBitsSymbol::One });
    assert_eq!(result, Err(RunUntilResult::StepLimit));
    assert_eq!(tm.tape, vec![FlipBitsSymbol::Zero; 4]);
}

#[test]
fn rules_come_out_by_state_then_symbol() {
    let spec = check_palindrome_spec();
    let rules = spec.iter_rules();
    assert!(rules.len() > 1);
    for w in rules.windows(2) {
        let a = (w[0].0.index(), w[0].1.index());
        let b = (w[1].0.index(), w[1].1.index());
        assert!(a < b);
    }
}
