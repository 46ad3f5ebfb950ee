use std::collections::{HashMap, HashSet};

use utmmmmm::intervals::{analyze_machine, key_of, once_in_every_interval, IntervalStats};
use utmmmmm::tm::{Dir, RunningTuringMachine, TuringMachineSpec};
use utmmmmm::toy_machines::{double_x_spec, flip_bits_spec, DoubleXSymbol, FlipBitsSymbol};
use utmmmmm::utm::make_utm_spec;
use utmmmmm::utm_symbols::{all_utm_states, all_utm_symbols, State, Symbol};

struct Reference {
    appearances: HashMap<(State, Symbol), usize>,
    exactly_once: HashMap<(State, Symbol), usize>,
    total_intervals: usize,
    ever_had_xy: HashSet<(State, Symbol)>,
}

// The interval tally written directly with hash maps, step by step.
fn reference(encoded: Vec<Symbol>) -> Reference {
    let utm_spec = make_utm_spec();
    let head_move_caret_states = [State::MrSkipCell, State::MlMark, State::MrExtToBlank];
    let mut tm = RunningTuringMachine::new(&utm_spec);
    tm.tape = encoded;
    let mut transition_counts: HashMap<(State, Symbol), usize> = HashMap::new();
    let mut had_xy: HashSet<(State, Symbol)> = HashSet::new();
    let mut appearances = HashMap::new();
    let mut exactly_once = HashMap::new();
    let mut ever_had_xy = HashSet::new();
    let mut total = 0;
    let mut xy_count = tm.tape.iter().filter(|&&s| s == Symbol::X || s == Symbol::Y).count();
    for _ in 0..200_000_000u64 {
        if tm.pos >= tm.tape.len() {
            tm.tape.resize(tm.pos + 1, utm_spec.blank());
        }
        let state = tm.state;
        let sym = tm.tape[tm.pos];
        match utm_spec.get_transition(state, sym) {
            Some((ns, new_sym, dir)) => {
                *transition_counts.entry((state, sym)).or_insert(0) += 1;
                if xy_count > 0 {
                    had_xy.insert((state, sym));
                }
                if sym == Symbol::X || sym == Symbol::Y {
                    xy_count -= 1;
                }
                if new_sym == Symbol::X || new_sym == Symbol::Y {
                    xy_count += 1;
                }
                tm.state = ns;
                tm.tape[tm.pos] = new_sym;
                tm.pos = match dir {
                    Dir::Left => tm.pos.saturating_sub(1),
                    Dir::Right => tm.pos + 1,
                };
                if new_sym == Symbol::Caret && head_move_caret_states.contains(&state) {
                    total += 1;
                    for (&key, &count) in &transition_counts {
                        *appearances.entry(key).or_insert(0) += 1;
                        if count == 1 {
                            *exactly_once.entry(key).or_insert(0) += 1;
                        }
                    }
                    for &key in &had_xy {
                        ever_had_xy.insert(key);
                    }
                    transition_counts.clear();
                    had_xy.clear();
                }
            }
            None => break,
        }
    }
    for &key in &had_xy {
        ever_had_xy.insert(key);
    }
    Reference { appearances, exactly_once, total_intervals: total, ever_had_xy }
}

fn assert_same(stats: &IntervalStats, r: &Reference) {
    assert_eq!(stats.total_intervals, r.total_intervals);
    for &s in &all_utm_states() {
        for &y in &all_utm_symbols() {
            let k = key_of(s, y);
            assert_eq!(stats.appearances[k], *r.appearances.get(&(s, y)).unwrap_or(&0), "appearances {:?} {:?}", s, y);
            assert_eq!(stats.exactly_once[k], *r.exactly_once.get(&(s, y)).unwrap_or(&0), "exactly once {:?} {:?}", s, y);
            assert_eq!(stats.ever_had_xy[k], r.ever_had_xy.contains(&(s, y)), "xy {:?} {:?}", s, y);
        }
    }
}

fn flip_encoding() -> Vec<Symbol> {
    let utm_spec = make_utm_spec();
    let flip = flip_bits_spec();
    let mut tm = RunningTuringMachine::new(&flip);
    tm.tape = vec![FlipBitsSymbol::Zero, FlipBitsSymbol::One];
    utm_spec.encode(&tm)
}

fn double_x_encoding() -> Vec<Symbol> {
    let utm_spec = make_utm_spec();
    let spec = double_x_spec();
    let mut tm = RunningTuringMachine::new(&spec);
    tm.tape = vec![DoubleXSymbol::Dollar, DoubleXSymbol::X];
    utm_spec.encode(&tm)
}

#[test]
fn analyze_machine_matches_a_direct_tally_flip_bits() {
    let utm_spec = make_utm_spec();
    let stats = analyze_machine(&utm_spec, flip_encoding());
    let r = reference(flip_encoding());
    assert!(stats.total_intervals > 0);
    assert_same(&stats, &r);
}

#[test]
fn analyze_machine_matches_a_direct_tally_double_x() {
    let utm_spec = make_utm_spec();
    let stats = analyze_machine(&utm_spec, double_x_encoding());
    let r = reference(double_x_encoding());
    assert_same(&stats, &r);
}

#[test]
fn once_in_every_interval_keeps_what_all_runs_agree_on() {
    let utm_spec = make_utm_spec();
    let a = analyze_machine(&utm_spec, flip_encoding());
    let b = analyze_machine(&utm_spec, double_x_encoding());
    let both = once_in_every_interval(&vec![a, b]);
    let a = analyze_machine(&utm_spec, flip_encoding());
    let b = analyze_machine(&utm_spec, double_x_encoding());
    for &k in &both {
        for s in [&a, &b] {
            assert!(s.total_intervals > 0);
            assert!(!s.ever_had_xy[k]);
            assert_eq!(s.appearances[k], s.total_intervals);
            assert_eq!(s.exactly_once[k], s.total_intervals);
        }
    }
    let only_a = once_in_every_interval(&vec![a]);
    for k in &both {
        assert!(only_a.contains(k));
    }
    assert!(once_in_every_interval(&Vec::new()).len() == 2720);
}
