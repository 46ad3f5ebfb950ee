use utmmmmm::encoding::{group_rules, serialize_rules, GuestRule, MyUtmSpecOptimizationHints};
use utmmmmm::tm::{
    run_tm, step, Dir, HaltReason, RunningTMStatus, RunningTuringMachine, SimpleTuringMachineSpec,
    TuringMachineSpec,
};
use utmmmmm::toy_machines::{
    accept_immediately_spec, check_palindrome_spec, double_x_spec, flip_bits_spec, palindrome_spec, reject_immediately_spec,
    AccImmSymbol, CheckPalindromeState, CheckPalindromeSymbol, DoubleXSymbol, FlipBitsState, FlipBitsSymbol,
    Letter, RejImmSymbol,
};
use utmmmmm::utm::{make_utm_spec, run_until_inner_step};
use utmmmmm::utm_symbols::Symbol;

fn run_via_utm<'a, Guest: TuringMachineSpec>(
    guest: &'a Guest,
    input: &[Guest::Symbol],
    max_utm_steps: usize,
) -> (String, RunningTuringMachine<'a, Guest>) {
    let utm_spec = make_utm_spec();
    let mut guest_tm = RunningTuringMachine::new(guest);
    guest_tm.tape = if input.is_empty() { vec![guest.blank()] } else { input.to_vec() };
    let encoded = utm_spec.encode(&guest_tm);
    let mut utm_tm = RunningTuringMachine::new(&utm_spec);
    utm_tm.tape = encoded;
    let result = run_tm(&mut utm_tm, max_utm_steps);
    let status = match result {
        Ok(HaltReason::Accepted { .. }) => "accept",
        Ok(HaltReason::Rejected { .. }) => "reject",
        Err(_) => "limit",
    };
    let decoded = utm_spec.decode(guest, &utm_tm.tape).expect("should be able to decode UTM tape");
    (status.to_string(), decoded)
}

fn strip_trailing_blanks<Spec: TuringMachineSpec>(tm: &mut RunningTuringMachine<Spec>) {
    while tm.tape.last() == Some(&tm.spec.blank()) && tm.tape.len() > 1 {
        tm.tape.pop();
    }
}

fn assert_faithful<Spec: TuringMachineSpec>(guest_tm: RunningTuringMachine<Spec>, max_direct_steps: usize, max_utm_steps: usize) {
    let utm = make_utm_spec();
    let mut direct_tm = RunningTuringMachine {
        spec: guest_tm.spec,
        state: guest_tm.state,
        pos: guest_tm.pos,
        tape: guest_tm.tape.clone(),
    };
    let direct_result = run_tm(&mut direct_tm, max_direct_steps);
    let direct_status = match &direct_result {
        Ok(HaltReason::Accepted { .. }) => "accept",
        Ok(HaltReason::Rejected { .. }) => "reject",
        Err(_) => panic!("direct run hit step limit ({} steps)", max_direct_steps),
    };
    let encoded = utm.encode(&guest_tm);
    let utm_spec = make_utm_spec();
    let mut utm_tm = RunningTuringMachine::new(&utm_spec);
    utm_tm.tape = encoded;
    let utm_result = run_tm(&mut utm_tm, max_utm_steps);
    let utm_status = match &utm_result {
        Ok(HaltReason::Accepted { .. }) => "accept",
        Ok(HaltReason::Rejected { .. }) => "reject",
        Err(_) => panic!("UTM run hit step limit ({} steps)", max_utm_steps),
    };
    assert_eq!(direct_status, utm_status, "status mismatch: direct={}, utm={}", direct_status, utm_status);
    let mut decoded = utm.decode(guest_tm.spec, &utm_tm.tape).expect("should decode UTM tape after halting");
    strip_trailing_blanks(&mut direct_tm);
    strip_trailing_blanks(&mut decoded);
    assert_eq!(direct_tm.tape, decoded.tape, "tape mismatch after {:?}", direct_status);
}

fn assert_tick_faithful<Spec: TuringMachineSpec>(
    guest_spec: &Spec,
    input: &[Spec::Symbol],
    n_steps: usize,
    max_utm_steps_per_tick: usize,
) {
    let utm_spec = make_utm_spec();
    let mut guest_tm = RunningTuringMachine::new(guest_spec);
    guest_tm.tape = if input.is_empty() { vec![guest_spec.blank()] } else { input.to_vec() };
    let encoded = utm_spec.encode(&guest_tm);
    let mut utm_tm = RunningTuringMachine::new(&utm_spec);
    utm_tm.tape = encoded;
    let decoded = utm_spec.decode(guest_spec, &utm_tm.tape).expect("decode at initial state");
    assert_eq!(decoded.state, guest_tm.state, "initial state mismatch");
    assert_eq!(decoded.pos, guest_tm.pos, "initial pos mismatch");
    assert_eq!(decoded.tape, guest_tm.tape, "initial tape mismatch");
    for i in 0..n_steps {
        let guest_status = step(&mut guest_tm);
        if !matches!(guest_status, RunningTMStatus::Running) {
            break;
        }
        if guest_tm.pos >= guest_tm.tape.len() {
            guest_tm.tape.resize(guest_tm.pos + 1, guest_spec.blank());
        }
        let tick_result = run_until_inner_step(&utm_spec, &mut utm_tm, max_utm_steps_per_tick);
        assert!(tick_result.is_ok(), "UTM should reach tick at step {} (got {:?})", i + 1, tick_result);
        let decoded = utm_spec.decode(guest_spec, &utm_tm.tape).expect("decode at tick");
        assert_eq!(decoded.state, guest_tm.state, "state mismatch at inner step {}", i + 1);
        assert_eq!(decoded.pos, guest_tm.pos, "pos mismatch at inner step {}", i + 1);
        let mut g = guest_tm.tape.clone();
        while g.last() == Some(&guest_spec.blank()) && g.len() > 1 {
            g.pop();
        }
        let mut d = decoded.tape;
        while d.last() == Some(&guest_spec.blank()) && d.len() > 1 {
            d.pop();
        }
        assert_eq!(d, g, "tape mismatch at inner step {}", i + 1);
    }
}

fn utm_spec_builds() {
    let utm = make_utm_spec();
    let n_rules = utm.iter_rules().len();
    assert!(n_rules > 100, "UTM should have many rules, got {}", n_rules);
}

#[test]
fn test_utm_spec_builds() {
    utm_spec_builds();
}

#[test]
fn tests_test_utm_spec_builds() {
    utm_spec_builds();
}

fn roundtrip_flip_bits() {
    let spec = flip_bits_spec();
    let mut guest_tm = RunningTuringMachine::new(&spec);
    guest_tm.tape = vec![FlipBitsSymbol::Zero, FlipBitsSymbol::One];
    let utm = make_utm_spec();
    let encoded = utm.encode(&guest_tm);
    let decoded = utm.decode(&spec, &encoded).unwrap();
    assert_eq!(decoded.state, guest_tm.state);
    assert_eq!(decoded.pos, 0);
    assert_eq!(decoded.tape, vec![FlipBitsSymbol::Zero, FlipBitsSymbol::One]);
}

#[test]
fn test_encode_decode_roundtrip_flip_bits() {
    roundtrip_flip_bits();
}

#[test]
fn tests_test_encode_decode_roundtrip_flip_bits() {
    roundtrip_flip_bits();
}

fn roundtrip_empty() {
    let spec = accept_immediately_spec();
    let mut guest_tm = RunningTuringMachine::new(&spec);
    guest_tm.tape = vec![spec.blank()];
    let utm = make_utm_spec();
    let encoded = utm.encode(&guest_tm);
    let decoded = utm.decode(&spec, &encoded).unwrap();
    assert_eq!(decoded.state, spec.initial());
    assert_eq!(decoded.pos, 0);
    assert_eq!(decoded.tape, vec![spec.blank()]);
}

#[test]
fn test_encode_decode_roundtrip_empty() {
    roundtrip_empty();
}

#[test]
fn tests_test_encode_decode_roundtrip_empty() {
    roundtrip_empty();
}

fn roundtrip_palindrome() {
    let spec = check_palindrome_spec();
    let mut guest_tm = RunningTuringMachine::new(&spec);
    guest_tm.tape = vec![CheckPalindromeSymbol::Letter(Letter::A), CheckPalindromeSymbol::Letter(Letter::B), CheckPalindromeSymbol::Letter(Letter::A)];
    let utm = make_utm_spec();
    let encoded = utm.encode(&guest_tm);
    let decoded = utm.decode(&spec, &encoded).unwrap();
    assert_eq!(decoded.state, CheckPalindromeState::Start);
    assert_eq!(decoded.pos, 0);
    assert_eq!(decoded.tape, vec![CheckPalindromeSymbol::Letter(Letter::A), CheckPalindromeSymbol::Letter(Letter::B), CheckPalindromeSymbol::Letter(Letter::A)]);
}

#[test]
fn test_encode_decode_roundtrip_palindrome() {
    roundtrip_palindrome();
}

#[test]
fn tests_test_encode_decode_roundtrip_palindrome() {
    roundtrip_palindrome();
}

#[test]
fn encoding_of_empty_tape_writes_one_blank_cell() {
    let spec = flip_bits_spec();
    let guest_tm = RunningTuringMachine::new(&spec);
    let utm = make_utm_spec();
    let encoded = utm.encode(&guest_tm);
    let decoded = utm.decode(&spec, &encoded).unwrap();
    assert_eq!(decoded.tape, vec![FlipBitsSymbol::Blank]);
}

#[test]
fn encoding_of_flip_bits_is_exact() {
    let spec = flip_bits_spec();
    let mut guest_tm = RunningTuringMachine::new(&spec);
    guest_tm.tape = vec![FlipBitsSymbol::One];
    let encoded = make_utm_spec().encode(&guest_tm);
    // $ 1 # 00 # .0|00|1|00|L ; .0|01|0|10|R ; .0|10|0|01|R # 0 # ^10
    let expected = vec![
        Symbol::Dollar, Symbol::One, Symbol::Hash, Symbol::Zero, Symbol::Zero, Symbol::Hash, //
        Symbol::Dot, Symbol::Zero, Symbol::Pipe, Symbol::Zero, Symbol::Zero, Symbol::Pipe, Symbol::One, Symbol::Pipe, Symbol::Zero, Symbol::Zero, Symbol::Pipe, Symbol::L, Symbol::Semi, //
        Symbol::Dot, Symbol::Zero, Symbol::Pipe, Symbol::Zero, Symbol::One, Symbol::Pipe, Symbol::Zero, Symbol::Pipe, Symbol::One, Symbol::Zero, Symbol::Pipe, Symbol::R, Symbol::Semi, //
        Symbol::Dot, Symbol::Zero, Symbol::Pipe, Symbol::One, Symbol::Zero, Symbol::Pipe, Symbol::Zero, Symbol::Pipe, Symbol::Zero, Symbol::One, Symbol::Pipe, Symbol::R, Symbol::Hash, //
        Symbol::Zero, Symbol::Hash, Symbol::Caret, Symbol::One, Symbol::Zero,
    ];
    assert_eq!(encoded, expected);
}

#[test]
fn decode_refuses_a_tape_without_four_hashes() {
    let spec = flip_bits_spec();
    let utm = make_utm_spec();
    let tape = vec![Symbol::Dollar, Symbol::Hash, Symbol::Zero, Symbol::Hash];
    let r = utm.decode(&spec, &tape);
    assert_eq!(r.err(), Some(utmmmmm::encoding::DecodeError::TooFewDelimiters { found: 2 }));
}

fn utm_accept_immediately_empty() {
    let spec = accept_immediately_spec();
    let (status, _) = run_via_utm(&spec, &[], 10_000);
    assert_eq!(status, "accept");
}

#[test]
fn test_utm_accept_immediately() {
    let spec = accept_immediately_spec();
    let (status, _) = run_via_utm(&spec, &[AccImmSymbol::One], 10_000);
    assert_eq!(status, "accept");
}

#[test]
fn tests_test_utm_accept_immediately() {
    utm_accept_immediately_empty();
}

#[test]
fn test_utm_reject_immediately() {
    let spec = reject_immediately_spec();
    let (status, _) = run_via_utm(&spec, &[RejImmSymbol::One], 10_000);
    assert_eq!(status, "reject");
}

#[test]
fn tests_test_utm_reject_immediately() {
    let spec = reject_immediately_spec();
    let (status, _) = run_via_utm(&spec, &[], 10_000);
    assert_eq!(status, "reject");
}

fn utm_flip_bits() {
    let spec = flip_bits_spec();
    let (status, tm) = run_via_utm(&spec, &[FlipBitsSymbol::Zero, FlipBitsSymbol::One], 1_000_000);
    assert_eq!(status, "accept");
    assert_eq!(tm.tape[0], FlipBitsSymbol::One);
    assert_eq!(tm.tape[1], FlipBitsSymbol::Zero);
}

#[test]
fn test_utm_flip_bits() {
    utm_flip_bits();
}

#[test]
fn tests_test_utm_flip_bits() {
    utm_flip_bits();
}

fn utm_flip_bits_5() {
    let spec = flip_bits_spec();
    let (status, tm) = run_via_utm(&spec, &[FlipBitsSymbol::Zero, FlipBitsSymbol::One, FlipBitsSymbol::Zero, FlipBitsSymbol::One, FlipBitsSymbol::One], 10_000_000);
    assert_eq!(status, "accept");
    assert_eq!(tm.tape[0], FlipBitsSymbol::One);
    assert_eq!(tm.tape[1], FlipBitsSymbol::Zero);
    assert_eq!(tm.tape[2], FlipBitsSymbol::One);
    assert_eq!(tm.tape[3], FlipBitsSymbol::Zero);
    assert_eq!(tm.tape[4], FlipBitsSymbol::Zero);
}

#[test]
fn test_utm_flip_bits_5() {
    utm_flip_bits_5();
}

#[test]
fn tests_test_utm_flip_bits_5() {
    utm_flip_bits_5();
}

#[test]
fn test_utm_palindrome_accept() {
    let spec = abc_palindrome_spec();
    let (status, _) = run_via_utm(&spec, &[CheckPalindromeSymbol::Letter(Letter::A), CheckPalindromeSymbol::Letter(Letter::A)], 10_000_000);
    assert_eq!(status, "accept");
}

#[test]
fn test_utm_palindrome_reject() {
    let spec = abc_palindrome_spec();
    let (status, _) = run_via_utm(&spec, &[CheckPalindromeSymbol::Letter(Letter::A), CheckPalindromeSymbol::Letter(Letter::B)], 10_000_000);
    assert_eq!(status, "reject");
}

fn utm_double_x() {
    let spec = double_x_spec();
    let (status, tm) = run_via_utm(&spec, &[DoubleXSymbol::Dollar, DoubleXSymbol::X, DoubleXSymbol::X], 50_000_000);
    assert_eq!(status, "accept");
    assert_eq!(tm.tape[0], DoubleXSymbol::Dollar);
    assert_eq!(tm.tape[1], DoubleXSymbol::X);
    assert_eq!(tm.tape[2], DoubleXSymbol::X);
    assert_eq!(tm.tape[3], DoubleXSymbol::X);
    assert_eq!(tm.tape[4], DoubleXSymbol::X);
}

#[test]
fn test_utm_double_x() {
    utm_double_x();
}

#[test]
fn tests_test_utm_double_x() {
    utm_double_x();
}

#[test]
fn test_faithful_accept_immediately() {
    let spec = accept_immediately_spec();
    let mut tm = RunningTuringMachine::new(&spec);
    tm.tape = vec![AccImmSymbol::One];
    assert_faithful(tm, 100, 10_000);
}

#[test]
fn tests_test_faithful_accept_immediately() {
    let spec = accept_immediately_spec();
    let tm = RunningTuringMachine::new(&spec);
    assert_faithful(tm, 100, 10_000);
}

#[test]
fn test_faithful_reject_immediately() {
    let spec = reject_immediately_spec();
    let mut tm = RunningTuringMachine::new(&spec);
    tm.tape = vec![RejImmSymbol::One];
    assert_faithful(tm, 100, 10_000);
}

#[test]
fn tests_test_faithful_reject_immediately() {
    let spec = reject_immediately_spec();
    let tm = RunningTuringMachine::new(&spec);
    assert_faithful(tm, 100, 10_000);
}

fn faithful_flip_bits(input: Vec<FlipBitsSymbol>, max_utm_steps: usize) {
    let spec = flip_bits_spec();
    let mut tm = RunningTuringMachine::new(&spec);
    tm.tape = input;
    assert_faithful(tm, 100, max_utm_steps);
}

#[test]
fn test_faithful_flip_bits_2() {
    faithful_flip_bits(vec![FlipBitsSymbol::Zero, FlipBitsSymbol::One], 1_000_000);
}

#[test]
fn tests_test_faithful_flip_bits_2() {
    faithful_flip_bits(vec![FlipBitsSymbol::Zero, FlipBitsSymbol::One], 1_000_000);
}

#[test]
fn test_faithful_flip_bits_5() {
    faithful_flip_bits(vec![FlipBitsSymbol::Zero, FlipBitsSymbol::One, FlipBitsSymbol::Zero, FlipBitsSymbol::One, FlipBitsSymbol::One], 10_000_000);
}

#[test]
fn tests_test_faithful_flip_bits_5() {
    faithful_flip_bits(vec![FlipBitsSymbol::Zero, FlipBitsSymbol::One, FlipBitsSymbol::Zero, FlipBitsSymbol::One, FlipBitsSymbol::One], 10_000_000);
}

/// The palindrome checker over the letters A, B and C.
fn abc_palindrome_spec() -> SimpleTuringMachineSpec<CheckPalindromeState, CheckPalindromeSymbol> {
    palindrome_spec(&vec![Letter::A, Letter::B, Letter::C])
}

fn faithful_palindrome(input: Vec<CheckPalindromeSymbol>) {
    let spec = abc_palindrome_spec();
    let mut tm = RunningTuringMachine::new(&spec);
    tm.tape = input;
    assert_faithful(tm, 1_000, 10_000_000);
}

#[test]
fn test_faithful_palindrome_accept() {
    faithful_palindrome(vec![CheckPalindromeSymbol::Letter(Letter::A), CheckPalindromeSymbol::Letter(Letter::B), CheckPalindromeSymbol::Letter(Letter::A)]);
}

#[test]
fn test_faithful_palindrome_reject() {
    faithful_palindrome(vec![CheckPalindromeSymbol::Letter(Letter::A), CheckPalindromeSymbol::Letter(Letter::B), CheckPalindromeSymbol::Letter(Letter::C)]);
}

#[test]
fn test_faithful_palindrome_empty() {
    faithful_palindrome(vec![CheckPalindromeSymbol::Blank]);
}

fn faithful_double_x() {
    let spec = double_x_spec();
    let mut tm = RunningTuringMachine::new(&spec);
    tm.tape = vec![DoubleXSymbol::Dollar, DoubleXSymbol::X, DoubleXSymbol::X];
    assert_faithful(tm, 1_000, 50_000_000);
}

#[test]
fn test_faithful_double_x() {
    faithful_double_x();
}

#[test]
fn tests_test_faithful_double_x() {
    faithful_double_x();
}

#[test]
fn test_encode_with_last_rules_faithful_flip_bits() {
    let spec = flip_bits_spec();
    let mut tm = RunningTuringMachine::new(&spec);
    tm.tape = vec![FlipBitsSymbol::Zero, FlipBitsSymbol::One, FlipBitsSymbol::Zero];
    let utm_spec = make_utm_spec();
    let hints = MyUtmSpecOptimizationHints::from_transition_stats(&spec, &vec![(FlipBitsState::Flip, FlipBitsSymbol::Zero, 1)]);
    let encoded = utm_spec.encode_optimized(&tm, &hints);
    let mut direct_tm = RunningTuringMachine { spec: tm.spec, state: tm.state, pos: tm.pos, tape: tm.tape.clone() };
    let direct_result = run_tm(&mut direct_tm, 100).unwrap();
    let mut utm_tm = RunningTuringMachine::new(&utm_spec);
    utm_tm.tape = encoded;
    let utm_result = run_tm(&mut utm_tm, 10_000_000).unwrap();
    assert_eq!(
        matches!(direct_result, HaltReason::Accepted { .. }),
        matches!(utm_result, HaltReason::Accepted { .. }),
        "halt status should match"
    );
    let decoded = utm_spec.decode(&spec, &utm_tm.tape).expect("should decode UTM tape");
    strip_trailing_blanks(&mut direct_tm);
    let mut decoded_stripped = decoded;
    strip_trailing_blanks(&mut decoded_stripped);
    assert_eq!(direct_tm.tape, decoded_stripped.tape);
}

#[test]
fn test_encode_with_none_same_as_encode() {
    let spec = flip_bits_spec();
    let mut tm = RunningTuringMachine::new(&spec);
    tm.tape = vec![FlipBitsSymbol::Zero, FlipBitsSymbol::One];
    let utm = make_utm_spec();
    let plain = utm.encode(&tm);
    let with_none = utm.encode_optimized(&tm, &MyUtmSpecOptimizationHints::guess(&spec));
    assert_eq!(plain, with_none);
}

#[test]
fn test_at_tick_flip_bits_2() {
    let spec = flip_bits_spec();
    assert_tick_faithful(&spec, &[FlipBitsSymbol::Zero, FlipBitsSymbol::One], 5, 10_000_000);
}

#[test]
fn test_at_tick_flip_bits_5() {
    let spec = flip_bits_spec();
    assert_tick_faithful(&spec, &[FlipBitsSymbol::One, FlipBitsSymbol::Zero, FlipBitsSymbol::One, FlipBitsSymbol::One, FlipBitsSymbol::Zero], 8, 10_000_000);
}

#[test]
fn test_at_tick_double_x() {
    let spec = double_x_spec();
    assert_tick_faithful(&spec, &[DoubleXSymbol::Dollar, DoubleXSymbol::X, DoubleXSymbol::X], 20, 50_000_000);
}

#[test]
fn tick_boundary_is_entering_done_seek_home() {
    let utm = make_utm_spec();
    assert!(utm.is_tick_boundary(utmmmmm::utm_symbols::State::MlRestore, utmmmmm::utm_symbols::State::DoneSeekHome));
    assert!(!utm.is_tick_boundary(utmmmmm::utm_symbols::State::DoneSeekHome, utmmmmm::utm_symbols::State::DoneSeekHome));
    assert!(!utm.is_tick_boundary(utmmmmm::utm_symbols::State::MlRestore, utmmmmm::utm_symbols::State::Init));
}

/// A machine whose state `Scan` (0) moves right over symbols 1 and 2,
/// keeping them, and goes to `Done` (1) on the blank (0).
fn make_noop_test_spec() -> SimpleTuringMachineSpec<u8, u8> {
    SimpleTuringMachineSpec::new(
        0,
        vec![1],
        0,
        vec![(0u8, 1u8, 0u8, 1u8, Dir::Right), (0u8, 2u8, 0u8, 2u8, Dir::Right), (0u8, 0u8, 1u8, 0u8, Dir::Left)],
        vec![0, 1],
        vec![0, 1, 2],
    )
}

#[test]
fn test_noop_encoding_has_commas() {
    let spec = make_noop_test_spec();
    let utm = make_utm_spec();
    let mut tm = RunningTuringMachine::new(&spec);
    tm.tape = vec![1, 2, 0];
    let encoded = utm.encode(&tm);
    let hashes: Vec<usize> =
        encoded.iter().enumerate().filter(|(_, s)| **s == Symbol::Hash).map(|(i, _)| i).collect();
    let rules_section = &encoded[hashes[1] + 1..hashes[2]];
    let comma_count = rules_section.iter().filter(|s| **s == Symbol::Comma).count();
    assert_eq!(comma_count, 2, "Expected 2 commas for 2 noop rules, got {}", comma_count);
}

#[test]
fn test_noop_faithful_simple() {
    let spec = make_noop_test_spec();
    let mut tm = RunningTuringMachine::new(&spec);
    tm.tape = vec![1, 2, 0];
    assert_faithful(tm, 100, 1_000_000);
}

#[test]
fn test_noop_tick_faithful() {
    let spec = make_noop_test_spec();
    assert_tick_faithful(&spec, &[1u8, 2, 1, 2, 0], 6, 10_000_000);
}

#[test]
fn test_noop_faithful_flip_bits() {
    faithful_flip_bits(vec![FlipBitsSymbol::Zero, FlipBitsSymbol::One, FlipBitsSymbol::Zero], 1_000_000);
}

#[test]
fn test_noop_faithful_palindrome() {
    let spec = check_palindrome_spec();
    let mut tm = RunningTuringMachine::new(&spec);
    tm.tape = vec![CheckPalindromeSymbol::Letter(Letter::A), CheckPalindromeSymbol::Letter(Letter::B), CheckPalindromeSymbol::Letter(Letter::A)];
    assert_faithful(tm, 1_000, 50_000_000);
}

#[test]
fn frequent_rules_go_last() {
    let spec = flip_bits_spec();
    let hints = MyUtmSpecOptimizationHints::from_transition_stats(
        &spec,
        &vec![(FlipBitsState::Flip, FlipBitsSymbol::Blank, 5), (FlipBitsState::Flip, FlipBitsSymbol::Zero, 9)],
    );
    // Counts: (Flip, FlipBitsSymbol::Blank) 5, (Flip, FlipBitsSymbol::Zero) 9, (Flip, FlipBitsSymbol::One) 0.
    let order: Vec<(usize, usize)> = hints
        .rules
        .iter()
        .map(|r| match r {
            GuestRule::Single { state, sym, .. } => (*state, *sym),
            _ => panic!("no groups here"),
        })
        .collect();
    assert_eq!(order, vec![(0, 2), (0, 0), (0, 1)]);
}

#[test]
fn test_group_rules_no_noops() {
    let spec = make_noop_test_spec();
    let hints = MyUtmSpecOptimizationHints::guess(&spec);
    let rules = vec![(0u8, 0u8, 1u8, 0u8, Dir::Left)];
    let grouped = group_rules(&rules, &hints.state_encodings, &hints.symbol_encodings);
    assert_eq!(grouped.len(), 1);
    assert!(matches!(grouped[0], GuestRule::Single { .. }));
}

#[test]
fn test_group_rules_all_noops_same_dir() {
    let spec = make_noop_test_spec();
    let hints = MyUtmSpecOptimizationHints::guess(&spec);
    let rules = vec![(0u8, 1u8, 0u8, 1u8, Dir::Right), (0u8, 2u8, 0u8, 2u8, Dir::Right)];
    let grouped = group_rules(&rules, &hints.state_encodings, &hints.symbol_encodings);
    assert_eq!(grouped.len(), 1);
    match &grouped[0] {
        GuestRule::NoopGroup { state, syms, dir } => {
            assert_eq!(*state, hints.state_code(&0u8));
            assert_eq!(syms.len(), 2);
            assert_eq!(syms[0], hints.symbol_code(&1u8));
            assert_eq!(syms[1], hints.symbol_code(&2u8));
            assert_eq!(*dir, Dir::Right);
        },
        _ => panic!("expected NoopGroup"),
    }
}

#[test]
fn test_group_rules_mixed() {
    let spec = make_noop_test_spec();
    let hints = MyUtmSpecOptimizationHints::guess(&spec);
    let rules = vec![
        (0u8, 1u8, 0u8, 1u8, Dir::Right),
        (0u8, 0u8, 1u8, 0u8, Dir::Left),
        (0u8, 2u8, 0u8, 2u8, Dir::Right),
    ];
    let grouped = group_rules(&rules, &hints.state_encodings, &hints.symbol_encodings);
    assert_eq!(grouped.len(), 2);
    assert!(matches!(grouped[0], GuestRule::Single { .. }));
    match &grouped[1] {
        GuestRule::NoopGroup { syms, .. } => assert_eq!(syms.len(), 2),
        _ => panic!("expected NoopGroup"),
    }
}

#[test]
fn test_group_rules_different_dirs() {
    let spec = make_noop_test_spec();
    let hints = MyUtmSpecOptimizationHints::guess(&spec);
    let rules = vec![(0u8, 1u8, 0u8, 1u8, Dir::Right), (0u8, 2u8, 0u8, 2u8, Dir::Left)];
    let grouped = group_rules(&rules, &hints.state_encodings, &hints.symbol_encodings);
    assert_eq!(grouped.len(), 2);
    assert!(matches!(&grouped[0], GuestRule::NoopGroup { dir: Dir::Right, .. }));
    assert!(matches!(&grouped[1], GuestRule::NoopGroup { dir: Dir::Left, .. }));
}

#[test]
fn test_serialize_single_rule() {
    let rule = GuestRule::Single { state: 0, sym: 1, new_state: 1, new_sym: 0, dir: Dir::Left };
    let syms = rule.serialize(1, 2);
    assert_eq!(
        syms,
        vec![
            Symbol::Dot,
            Symbol::Zero,
            Symbol::Pipe,
            Symbol::Zero,
            Symbol::One,
            Symbol::Pipe,
            Symbol::One,
            Symbol::Pipe,
            Symbol::Zero,
            Symbol::Zero,
            Symbol::Pipe,
            Symbol::L,
        ]
    );
}

#[test]
fn test_serialize_noop_group() {
    let rule = GuestRule::NoopGroup { state: 1, syms: vec![0, 2, 3], dir: Dir::Right };
    let syms = rule.serialize(2, 2);
    assert_eq!(
        syms,
        vec![
            Symbol::Dot,
            Symbol::Zero,
            Symbol::One,
            Symbol::Comma,
            Symbol::Zero,
            Symbol::Zero,
            Symbol::Comma,
            Symbol::One,
            Symbol::Zero,
            Symbol::Comma,
            Symbol::One,
            Symbol::One,
            Symbol::Pipe,
            Symbol::R,
        ]
    );
}

#[test]
fn test_serialize_rules_semicolons() {
    let rules = vec![
        GuestRule::Single { state: 0, sym: 0, new_state: 1, new_sym: 0, dir: Dir::Left },
        GuestRule::NoopGroup { state: 0, syms: vec![1, 2], dir: Dir::Right },
    ];
    let tape = serialize_rules(&rules, 1, 2);
    let semi_count = tape.iter().filter(|&&s| s == Symbol::Semi).count();
    assert_eq!(semi_count, 1, "two rules should have one semicolon separator");
    assert_eq!(tape[0], Symbol::Dot);
}

#[test]
fn decode_error_message_names_the_count() {
    let e = utmmmmm::encoding::DecodeError::TooFewDelimiters { found: 2 };
    assert_eq!(e.message(), "expected at least 4 # delimiters, found 2");
    let e = utmmmmm::encoding::DecodeError::TooFewDelimiters { found: 130 };
    assert_eq!(e.message(), "expected at least 4 # delimiters, found 130");
}
