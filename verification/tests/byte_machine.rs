use utmmmmm::byte_machine::{
    build_spec, decode_tape, encode_tape, format_tape, infinite_utm_tape_background, run_tm, scan_left_states,
    scan_right_states, InfiniteTape, RunResult, State, Symbol, TuringMachineSpec,
};
use utmmmmm::tm::Dir;

fn s(x: &str) -> String {
    x.to_string()
}

fn flip_bits() -> TuringMachineSpec {
    build_spec(
        &vec![s("flip"), s("done")],
        &vec![s("_"), s("0"), s("1")],
        &s("flip"),
        &s("_"),
        &vec![s("done")],
        &vec![
            (s("flip"), s("0"), s("flip"), s("1"), Dir::Right),
            (s("flip"), s("1"), s("flip"), s("0"), Dir::Right),
            (s("flip"), s("_"), s("done"), s("_"), Dir::Left),
        ],
    )
}

#[test]
fn build_spec_lays_out_the_table() {
    let m = flip_bits();
    assert_eq!(m.n_states, 2);
    assert_eq!(m.n_symbols, 3);
    assert_eq!(m.initial, State(0));
    assert_eq!(m.accept, State(1));
    assert_eq!(m.blank, Symbol(0));
    assert_eq!(m.accepting, vec![false, true]);
    assert_eq!(m.transitions.len(), 65536);
    assert_eq!(m.get_transition(State(0), Symbol(1)), Some((State(0), Symbol(2), Dir::Right)));
    assert_eq!(m.get_transition(State(0), Symbol(0)), Some((State(1), Symbol(0), Dir::Left)));
    assert_eq!(m.get_transition(State(1), Symbol(0)), None);
    assert!(m.is_accepting(State(1)));
    assert!(!m.is_accepting(State(0)));
    assert!(!m.is_accepting(State(7)));
    assert_eq!(m.state_index("done"), Some(State(1)));
    assert_eq!(m.state_index("nowhere"), None);
    assert_eq!(m.symbol_index("1"), Some(Symbol(2)));
    assert_eq!(m.ordered_rules.len(), 3);
    assert_eq!(m.ordered_rules[2], (State(0), Symbol(0), State(1), Symbol(0), Dir::Left));
}

#[test]
fn a_later_rule_replaces_an_earlier_one() {
    let m = build_spec(
        &vec![s("a")],
        &vec![s("_")],
        &s("a"),
        &s("_"),
        &vec![],
        &vec![(s("a"), s("_"), s("a"), s("_"), Dir::Left), (s("a"), s("_"), s("a"), s("_"), Dir::Right)],
    );
    assert_eq!(m.get_transition(State(0), Symbol(0)), Some((State(0), Symbol(0), Dir::Right)));
    assert_eq!(m.accept, State(255));
}

#[test]
fn encode_tape_layout_and_decode() {
    let m = flip_bits();
    let tape = encode_tape(&m, &[Symbol(1), Symbol(2)], 1, None);
    // $ # .0|01|0|10|d ; .0|10|0|01|d ; .0|00|1|00|l # 1 # 0 # 00 # 01 ,^ 10
    let expect: Vec<u8> = vec![
        15, 5, //
        12, 1, 6, 1, 2, 6, 1, 6, 2, 1, 6, 11, 7, //
        12, 1, 6, 2, 1, 6, 1, 6, 1, 2, 6, 11, 7, //
        12, 1, 6, 1, 1, 6, 2, 6, 1, 1, 6, 10, //
        5, 2, //
        5, 1, //
        5, 1, 1, //
        5, 1, 2, 8, 9, 2, 1,
    ];
    assert_eq!(tape.iter().map(|s| s.0).collect::<Vec<u8>>(), expect);
    let d = decode_tape(&tape, &m);
    assert_eq!(d.state, 0);
    assert_eq!(d.head_pos, 1);
    assert_eq!(d.tape, vec![1, 2]);
}

#[test]
fn encode_tape_of_empty_input_writes_one_blank_cell() {
    let m = flip_bits();
    let tape = encode_tape(&m, &[], 0, Some(State(1)));
    let d = decode_tape(&tape, &m);
    assert_eq!(d.state, 1);
    assert_eq!(d.head_pos, 0);
    assert_eq!(d.tape, vec![0]);
}

#[test]
fn two_sided_tape_grows_both_ways() {
    let mut t = InfiniteTape::new(&[Symbol(1), Symbol(2)], Symbol(0));
    assert_eq!(t.get(0), Symbol(1));
    assert_eq!(t.get(1), Symbol(2));
    assert_eq!(t.get(2), Symbol(0));
    assert_eq!(t.get(-3), Symbol(0));
    t.set(-2, Symbol(5));
    t.set(4, Symbol(7));
    assert_eq!(t.get(-2), Symbol(5));
    assert_eq!(t.get(-1), Symbol(0));
    assert_eq!(t.get(4), Symbol(7));
    let cells: Vec<u8> = t.extract(-2, 4).iter().map(|s| s.0).collect();
    assert_eq!(cells, vec![5, 0, 1, 2, 0, 0, 7]);
    assert!(t.extract(3, 2).is_empty());
}

#[test]
fn run_flips_every_bit_and_accepts() {
    let m = flip_bits();
    let mut tape = InfiniteTape::new(&[Symbol(1), Symbol(2)], m.blank);
    let mut head: i64 = 0;
    let mut state = m.initial;
    let r = run_tm(&m, &mut tape, &mut head, &mut state, 100);
    assert_eq!(r, RunResult::Accepted(3));
    assert_eq!(head, 1);
    assert_eq!(state, State(1));
    let cells: Vec<u8> = tape.extract(0, 2).iter().map(|s| s.0).collect();
    assert_eq!(cells, vec![2, 1, 0]);
}

#[test]
fn run_stops_at_the_step_limit() {
    let m = flip_bits();
    let mut tape = InfiniteTape::new(&[Symbol(1), Symbol(2)], m.blank);
    let mut head: i64 = 0;
    let mut state = m.initial;
    let r = run_tm(&m, &mut tape, &mut head, &mut state, 1);
    assert_eq!(r, RunResult::StepLimit(1));
    assert_eq!(head, 1);
    assert_eq!(state, State(0));
    assert_eq!(tape.get(0), Symbol(2));
}

#[test]
fn run_rejects_in_a_stuck_state_that_does_not_accept() {
    let m = build_spec(&vec![s("a"), s("b")], &vec![s("_")], &s("a"), &s("_"), &vec![s("b")], &vec![]);
    let mut tape = InfiniteTape::new(&[], m.blank);
    let mut head: i64 = 0;
    let mut state = m.initial;
    assert_eq!(run_tm(&m, &mut tape, &mut head, &mut state, 10), RunResult::Rejected(0));
}

#[test]
fn scanning_states_are_found() {
    let m = build_spec(
        &vec![s("r"), s("l"), s("w")],
        &vec![s("_"), s("x")],
        &s("r"),
        &s("_"),
        &vec![],
        &vec![
            (s("r"), s("x"), s("r"), s("x"), Dir::Right),
            (s("l"), s("x"), s("l"), s("x"), Dir::Left),
            (s("w"), s("x"), s("w"), s("_"), Dir::Right),
        ],
    );
    assert_eq!(scan_right_states(&m), vec![true, false, false]);
    assert_eq!(scan_left_states(&m), vec![false, true, false]);
}

#[test]
fn tape_text_has_one_character_per_cell() {
    let t: Vec<Symbol> = vec![15, 5, 12, 1, 6, 2, 7, 8, 9, 10, 11, 0, 3, 4, 13, 14]
        .into_iter()
        .map(Symbol)
        .collect();
    assert_eq!(format_tape(&t), "$#.0|1;,^ld_XY*>");
}

#[test]
fn background_cells_encode_the_positions_they_name() {
    let header = vec![Symbol(15), Symbol(5)];
    let at = |i: usize| infinite_utm_tape_background(&header, 4, 5, i).0;
    assert_eq!(at(0), 15);
    assert_eq!(at(1), 5);
    assert_eq!(at(2), 9);
    // cell 0 holds the code of position 0, that is 15 = 1111
    assert_eq!((3..7).map(at).collect::<Vec<u8>>(), vec![2, 2, 2, 2]);
    assert_eq!(at(7), 8);
    // cell 1 holds the code of position 1, that is 5 = 0101
    assert_eq!((8..12).map(at).collect::<Vec<u8>>(), vec![1, 2, 1, 2]);
    // cell 2 holds the code of position 2, the caret (9 = 1001)
    assert_eq!((13..17).map(at).collect::<Vec<u8>>(), vec![2, 1, 1, 2]);
}

#[test]
fn decoding_reads_back_state_head_and_cells() {
    let m = flip_bits();
    let input = vec![Symbol(2), Symbol(0), Symbol(1)];
    for head in 0..3 {
        let tape = encode_tape(&m, &input, head, Some(State(1)));
        let d = decode_tape(&tape, &m);
        assert_eq!(d.state, 1);
        assert_eq!(d.head_pos, head);
        assert_eq!(d.tape, vec![2, 0, 1]);
    }
}
