use utmmmmm::byte_machine::{decode_tape, encode_tape, run_tm, InfiniteTape, RunResult, Symbol, TuringMachineSpec};
use utmmmmm::byte_toys::{
    accept_immediately_spec, check_palindrome_spec, double_x_spec, flip_bits_spec, reject_immediately_spec,
    write1s_forever_spec,
};
use utmmmmm::byte_utm::build_utm_spec;

fn syms(v: &[u8]) -> Vec<Symbol> {
    v.iter().map(|&b| Symbol(b)).collect()
}

fn run_direct(m: &TuringMachineSpec, input: &[u8], max_steps: i64) -> (RunResult, Vec<u8>) {
    let mut tape = InfiniteTape::new(&syms(input), m.blank);
    let mut head: i64 = 0;
    let mut state = m.initial;
    let r = run_tm(m, &mut tape, &mut head, &mut state, max_steps);
    (r, tape.right.iter().map(|s| s.0).collect())
}

fn run_via_utm(m: &TuringMachineSpec, input: &[u8], max_steps: i64) -> (RunResult, Vec<usize>) {
    let utm = build_utm_spec();
    let encoded = encode_tape(m, &syms(input), 0, None);
    let mut tape = InfiniteTape::new(&encoded, utm.blank);
    let mut head: i64 = 0;
    let mut state = utm.initial;
    let r = run_tm(&utm, &mut tape, &mut head, &mut state, max_steps);
    let d = decode_tape(&tape.right, m);
    (r, d.tape)
}

#[test]
fn byte_toys_halt_as_described() {
    assert_eq!(run_direct(&accept_immediately_spec(), &[], 10).0, RunResult::Accepted(0));
    assert_eq!(run_direct(&reject_immediately_spec(), &[], 10).0, RunResult::Rejected(0));
    assert_eq!(run_direct(&write1s_forever_spec(), &[], 50).0, RunResult::StepLimit(50));
    let (r, tape) = run_direct(&flip_bits_spec(), &[1, 2, 2, 1], 100);
    assert_eq!(r, RunResult::Accepted(4));
    assert_eq!(tape, vec![2, 1, 1, 2]);
}

#[test]
fn byte_palindrome_checker_decides() {
    let m = check_palindrome_spec();
    assert_eq!(m.n_states, 9);
    assert_eq!(m.ordered_rules.len(), 26);
    assert_eq!(run_direct(&m, &[1, 2, 3, 2, 1], 1000).0, RunResult::Accepted(21));
    assert_eq!(run_direct(&m, &[1, 2], 1000).0, RunResult::Rejected(3));
    assert_eq!(run_direct(&m, &[], 1000).0, RunResult::Accepted(1));
}

#[test]
fn byte_double_x_doubles() {
    let (r, tape) = run_direct(&double_x_spec(), &[1, 2, 2], 1000);
    assert_eq!(r, RunResult::Accepted(26));
    assert_eq!(&tape[..5], &[1, 2, 2, 2, 2]);
}

#[test]
fn byte_utm_runs_the_toys_like_they_run() {
    let (r, tape) = run_via_utm(&check_palindrome_spec(), &[1, 2, 1], 20_000_000);
    assert!(matches!(r, RunResult::Accepted(_)));
    assert!(tape.iter().all(|&c| c == 0));
    let (r, _) = run_via_utm(&check_palindrome_spec(), &[1, 2], 20_000_000);
    assert!(matches!(r, RunResult::Rejected(_)));
    let (r, tape) = run_via_utm(&double_x_spec(), &[1, 2], 20_000_000);
    assert!(matches!(r, RunResult::Accepted(_)));
    assert_eq!(&tape[..3], &[1, 2, 2]);
}
