use utmmmmm::byte_machine::{
    build_spec, decode_tape, encode_tape, infinite_utm_tape_background, run_tm, InfiniteTape, RunResult, Symbol,
    TuringMachineSpec,
};
use utmmmmm::byte_utm::{build_utm_spec, infinite_utm_tape_header, N_UTM_STATES};
use utmmmmm::tm::Dir;

fn s(x: &str) -> String {
    x.to_string()
}

fn flip_bits() -> TuringMachineSpec {
    build_spec(
        &vec![s("flip"), s("done")],
        &vec![s("_"), s("0"), s("1")],
        &s("flip"),
        &s("_"),
        &vec![s("done")],
        &vec![
            (s("flip"), s("0"), s("flip"), s("1"), Dir::Right),
            (s("flip"), s("1"), s("flip"), s("0"), Dir::Right),
            (s("flip"), s("_"), s("done"), s("_"), Dir::Left),
        ],
    )
}

fn run_guest_via_utm(guest: &TuringMachineSpec, input: &[Symbol], max_steps: i64) -> (RunResult, Vec<Symbol>) {
    let utm = build_utm_spec();
    let encoded = encode_tape(guest, input, 0, None);
    let mut tape = InfiniteTape::new(&encoded, utm.blank);
    let mut head: i64 = 0;
    let mut state = utm.initial;
    let r = run_tm(&utm, &mut tape, &mut head, &mut state, max_steps);
    (r, tape.right.clone())
}

#[test]
fn utm_has_all_its_rules() {
    let utm = build_utm_spec();
    assert_eq!(utm.n_states, N_UTM_STATES);
    assert_eq!(utm.n_symbols, 16);
    assert_eq!(utm.ordered_rules.len(), 936);
    assert_eq!(utm.state_names.len(), 166);
    assert_eq!(utm.state_index("init"), Some(utm.initial));
    assert_eq!(utm.state_index("accept"), Some(utm.accept));
    assert!(utm.is_accepting(utm.accept));
    assert!(!utm.is_accepting(utm.initial));
    let n_entries = utm.transitions.iter().filter(|t| t.is_some()).count();
    assert_eq!(n_entries, 936);
    // from `$`, the first step skips to the rules section
    let skip = utm.state_index("init_skip").unwrap();
    assert_eq!(utm.get_transition(utm.initial, Symbol(15)), Some((skip, Symbol(15), Dir::Right)));
}

#[test]
fn utm_flips_bits_like_the_guest() {
    let guest = flip_bits();
    let (r, tape) = run_guest_via_utm(&guest, &[Symbol(1), Symbol(2)], 10_000_000);
    assert!(matches!(r, RunResult::Accepted(_)));
    let d = decode_tape(&tape, &guest);
    assert_eq!(d.state, 1);
    assert_eq!(d.head_pos, 1);
    assert_eq!(d.tape, vec![2, 1, 0]);
}

#[test]
fn utm_rejects_like_the_guest() {
    let guest = build_spec(&vec![s("a"), s("b")], &vec![s("_")], &s("a"), &s("_"), &vec![s("b")], &vec![]);
    let (r, _) = run_guest_via_utm(&guest, &[], 1_000_000);
    assert!(matches!(r, RunResult::Rejected(_)));
}

#[test]
fn utm_accepts_at_once_in_an_accepting_state() {
    let guest = build_spec(&vec![s("a")], &vec![s("_")], &s("a"), &s("_"), &vec![s("a")], &vec![]);
    let (r, _) = run_guest_via_utm(&guest, &[], 1_000_000);
    assert!(matches!(r, RunResult::Accepted(_)));
}

#[test]
fn infinite_tape_header_ends_before_the_first_head_marker() {
    let header = infinite_utm_tape_header();
    assert!(header.len() > 100);
    assert_eq!(header[0], Symbol(15));
    assert_eq!(header[1], Symbol(5));
    assert!(header.iter().all(|s| *s != Symbol(9)));
    let utm = build_utm_spec();
    let full = encode_tape(&utm, &[], 0, None);
    assert_eq!(&full[..header.len()], &header[..]);
    assert_eq!(full[header.len()], Symbol(9));
    // the first cell after the header is the head marker
    assert_eq!(infinite_utm_tape_background(&header, 4, 5, header.len()), Symbol(9));
}

#[test]
fn infinite_tape_decodes_to_itself() {
    let utm = build_utm_spec();
    let header = infinite_utm_tape_header();
    let n = 40;
    let len = header.len() + n * 5;
    let tape: Vec<Symbol> = (0..len).map(|i| infinite_utm_tape_background(&header, 4, 5, i)).collect();
    let d = decode_tape(&tape, &utm);
    assert_eq!(d.state, utm.initial.0 as usize);
    assert_eq!(d.head_pos, 0);
    let own: Vec<usize> = tape[..n].iter().map(|s| s.0 as usize).collect();
    assert_eq!(d.tape, own);
    assert_eq!(&own[..2], &[15, 5]);
}
