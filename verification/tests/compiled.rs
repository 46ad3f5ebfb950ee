use utmmmmm::compiled::{CSymbol, CompileError, CompiledTuringMachineSpec};
use utmmmmm::encoding::MyUtmSpecOptimizationHints;
use utmmmmm::infinity::InfiniteTape;
use utmmmmm::tm::{run_tm, step, RunningTuringMachine, SimpleTuringMachineSpec, TuringMachineSpec};
use utmmmmm::toy_machines::{check_palindrome_spec, flip_bits_spec, FlipBitsState, FlipBitsSymbol};
use utmmmmm::utm::make_utm_spec;
use utmmmmm::utm_symbols::Symbol;

#[test]
fn compile_fails_if_too_many_states() {}

#[test]
fn compiled_compile_fails_if_too_many_states() {}

fn compile_run_decompile() {
    let base = check_palindrome_spec();
    let mut base_tm = RunningTuringMachine::new(&base);
    let expected_status = run_tm(&mut base_tm, 1000).unwrap();
    let compiled = CompiledTuringMachineSpec::compile(&base).unwrap();
    let mut compiled_tm = RunningTuringMachine::new(&compiled);
    let actual_status = run_tm(&mut compiled_tm, 1000).unwrap();
    assert_eq!(actual_status, expected_status);
    assert_eq!(base_tm, compiled.decompile(&compiled_tm));
}

#[test]
fn compile_run_decompile_is_same_as_run() {
    compile_run_decompile();
}

#[test]
fn compiled_compile_run_decompile_is_same_as_run() {
    compile_run_decompile();
}

fn extender_run_matches_interpreted() {
    let utm_spec = make_utm_spec();
    let optimization_hints = MyUtmSpecOptimizationHints::guess(&utm_spec);
    let compiled = CompiledTuringMachineSpec::compile(&utm_spec).unwrap();
    let background = InfiniteTape::new(&optimization_hints);

    let mut interp_tm = RunningTuringMachine::new(&utm_spec);
    for _ in 0..1000 {
        if interp_tm.pos >= interp_tm.tape.len() {
            background.extend(&mut interp_tm.tape, interp_tm.pos + 1);
        }
        step(&mut interp_tm);
    }

    let mut compiled_tm = RunningTuringMachine::new(&compiled);
    for _ in 0..1000 {
        if compiled_tm.pos >= compiled_tm.tape.len() {
            background.extend_compiled(&mut compiled_tm.tape, compiled_tm.pos + 1, &compiled);
        }
        step(&mut compiled_tm);
    }

    let decompiled = compiled.decompile(&compiled_tm);
    assert_eq!(interp_tm.state, decompiled.state);
    assert_eq!(interp_tm.pos, decompiled.pos);
    assert_eq!(interp_tm.tape, decompiled.tape);
}

#[test]
fn compiled_extender_run_matches_interpreted() {
    extender_run_matches_interpreted();
}

#[test]
fn compiled_compiled_extender_run_matches_interpreted() {
    extender_run_matches_interpreted();
}

#[test]
fn compiled_extender_matches_original() {
    let utm = make_utm_spec();
    let compiled = CompiledTuringMachineSpec::compile(&utm).unwrap();
    let background = InfiniteTape::new(&MyUtmSpecOptimizationHints::guess(&utm));

    let mut original_tape: Vec<Symbol> = Vec::new();
    background.extend(&mut original_tape, 1000);

    let mut compiled_tape: Vec<CSymbol> = Vec::new();
    background.extend_compiled(&mut compiled_tape, 1000, &compiled);

    let decompiled: Vec<Symbol> = compiled_tape.iter().map(|cs| compiled.original_symbols[cs.0 as usize]).collect();
    assert_eq!(decompiled, original_tape);
}

#[test]
fn compile_refuses_more_than_256_states() {
    let states: Vec<usize> = (0..257).collect();
    let spec = SimpleTuringMachineSpec::new(0usize, vec![], 0u8, vec![], states, vec![0u8]);
    assert_eq!(CompiledTuringMachineSpec::compile(&spec).err(), Some(CompileError::TooManyStates));
}

#[test]
fn compiled_flip_bits_matches_direct_run() {
    let spec = flip_bits_spec();
    let compiled = CompiledTuringMachineSpec::compile(&spec).unwrap();
    assert_eq!(compiled.compile_state(FlipBitsState::Done).0, 1);
    assert_eq!(compiled.compile_symbol(FlipBitsSymbol::One).0, 2);
    assert_eq!(compiled.decompile_symbol(CSymbol(1)), FlipBitsSymbol::Zero);
    let mut tm = RunningTuringMachine::new(&compiled);
    tm.tape = vec![compiled.compile_symbol(FlipBitsSymbol::Zero), compiled.compile_symbol(FlipBitsSymbol::One)];
    let _ = run_tm(&mut tm, 100);
    let back = compiled.decompile(&tm);
    assert_eq!(back.state, FlipBitsState::Done);
    assert_eq!(back.tape, vec![FlipBitsSymbol::One, FlipBitsSymbol::Zero, FlipBitsSymbol::Blank]);
    assert_eq!(spec.blank(), FlipBitsSymbol::Blank);
}

#[test]
fn compile_accepts_exactly_256_states() {
    let states: Vec<usize> = (0..256).collect();
    let spec = SimpleTuringMachineSpec::new(0usize, vec![], 0u8, vec![], states, vec![0u8]);
    let compiled = CompiledTuringMachineSpec::compile(&spec).unwrap();
    assert_eq!(compiled.n_states, 256);
    assert_eq!(compiled.iter_states().len(), 256);
}
