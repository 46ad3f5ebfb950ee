use utmmmmm::compiled::{CSymbol, CompiledTuringMachineSpec};
use utmmmmm::encoding::MyUtmSpecOptimizationHints;
use utmmmmm::infinity::InfiniteTape;
use utmmmmm::savepoint::{build_snapshot, restore_tower, tape_from_overwrites};
use utmmmmm::tm::{pad, step, RunningTMStatus, RunningTuringMachine, TuringMachineSpec};
use utmmmmm::toy_machines::{flip_bits_spec, FlipBitsSymbol};
use utmmmmm::tower::Tower;
use utmmmmm::utm::make_utm_spec;
use utmmmmm::utm_symbols::{State, Symbol};

fn step_until_first_level(tower: &mut Tower, max_steps: u64) {
    let blank = tower.base.tm.spec.blank();
    for _ in 0..max_steps {
        while tower.base.tm.pos >= tower.base.tm.tape.len() {
            tower.base.tm.tape.push(blank);
        }
        let status = tower.step();
        assert_eq!(status, RunningTMStatus::Running);
        if !tower.decoded.is_empty() {
            return;
        }
    }
    panic!("no level was read back within {} steps", max_steps);
}

#[test]
fn tower_reads_the_level_above_after_its_first_step() {
    let utm = make_utm_spec();
    let encoder = MyUtmSpecOptimizationHints::guess(&utm);
    let compiled = CompiledTuringMachineSpec::compile(&utm).unwrap();

    let flip = flip_bits_spec();
    let mut flip_tm = RunningTuringMachine::new(&flip);
    flip_tm.tape = vec![FlipBitsSymbol::Zero, FlipBitsSymbol::One];
    let mut level1 = RunningTuringMachine::new(&utm);
    level1.tape = utm.encode(&flip_tm);

    let base_tape: Vec<CSymbol> = encoder.encode(&level1).iter().map(|&s| compiled.compile_symbol(s)).collect();
    let mut base_tm = RunningTuringMachine::new(&compiled);
    base_tm.tape = base_tape;
    let mut tower = Tower::new(&encoder, base_tm);
    step_until_first_level(&mut tower, 50_000_000);

    let mut direct = level1.clone();
    pad(&mut direct);
    assert_eq!(step(&mut direct), RunningTMStatus::Running);

    assert_eq!(tower.decoded.len(), 1);
    assert_eq!(tower.decoded[0].total_steps, 1);
    assert_eq!(tower.decoded[0].tm.state, direct.state);
    assert_eq!(tower.decoded[0].tm.pos, direct.pos);
    assert_eq!(tower.decoded[0].max_head_pos, direct.pos);
    assert!(tower.base.total_steps > 1);
    assert!(tower.base.max_head_pos >= tower.base.tm.pos);
    let below = compiled.decompile(&tower.base.tm);
    assert_eq!(below.state, State::DoneSeekHome);

    // A snapshot of the tower rebuilds the same tower.
    let background = InfiniteTape::new(&encoder);
    let snapshot = build_snapshot(&tower, &background);
    assert_eq!(snapshot.levels.len(), 2);
    assert_eq!(snapshot.levels[0].steps, tower.base.total_steps);
    assert_eq!(snapshot.levels[0].state, State::DoneSeekHome);
    assert_eq!(snapshot.levels[1].steps, 1);
    assert_eq!(snapshot.levels[1].state, direct.state);
    for w in snapshot.levels[0].overwrites.windows(2) {
        assert!(w[0].0 < w[1].0);
    }

    let restored = restore_tower(&encoder, &compiled, &snapshot, &background);
    assert_eq!(restored.base.total_steps, tower.base.total_steps);
    assert_eq!(restored.base.max_head_pos, tower.base.max_head_pos);
    assert_eq!(restored.base.tm.state, tower.base.tm.state);
    assert_eq!(restored.base.tm.pos, tower.base.tm.pos);
    let n = restored.base.tm.tape.len();
    assert_eq!(restored.base.tm.tape[..], tower.base.tm.tape[..n]);
    for k in n..tower.base.tm.tape.len() {
        assert_eq!(compiled.decompile_symbol(tower.base.tm.tape[k]), background.get(k));
    }
    assert_eq!(restored.decoded.len(), 1);
    assert_eq!(restored.decoded[0].total_steps, 1);
    assert_eq!(restored.decoded[0].tm.state, direct.state);
    assert_eq!(restored.decoded[0].tm.pos, direct.pos);
}

#[test]
fn compiled_tick_boundary_is_entering_done_seek_home() {
    let utm = make_utm_spec();
    let compiled = CompiledTuringMachineSpec::compile(&utm).unwrap();
    let done = compiled.compile_state(State::DoneSeekHome);
    let init = compiled.compile_state(State::Init);
    assert!(compiled.is_tick_boundary(init, done));
    assert!(!compiled.is_tick_boundary(done, done));
    assert!(!compiled.is_tick_boundary(done, init));
}

#[test]
fn tape_from_overwrites_applies_them_to_the_infinite_tape() {
    let utm = make_utm_spec();
    let encoder = MyUtmSpecOptimizationHints::guess(&utm);
    let background = InfiniteTape::new(&encoder);
    let tape = tape_from_overwrites(&vec![(3, Symbol::X), (1, Symbol::Y)], &background);
    assert_eq!(tape, vec![background.get(0), Symbol::Y, background.get(2), Symbol::X]);
    let tape = tape_from_overwrites(&vec![(2, Symbol::X), (2, Symbol::Y)], &background);
    assert_eq!(tape, vec![background.get(0), background.get(1), Symbol::Y]);
    let tape = tape_from_overwrites(&vec![], &background);
    assert!(tape.is_empty());
}
