use utmmmmm::encoding::MyUtmSpecOptimizationHints;
use utmmmmm::infinity::InfiniteTape;
use utmmmmm::tm::RunningTuringMachine;
use utmmmmm::utm::make_utm_spec;
use utmmmmm::utm_symbols::Symbol;

#[test]
fn test_is_self_similar() {
    let spec = make_utm_spec();
    let encoder = MyUtmSpecOptimizationHints::guess(&spec);
    let inf = InfiniteTape::new(&encoder);

    let header_len = encoder.encode(&RunningTuringMachine::new(&spec)).len() + 10;

    let mut l0_tape = vec![];
    inf.extend(&mut l0_tape, 200 * header_len);
    let l1 = encoder.decode(&l0_tape).unwrap();
    assert_eq!(l1.tape[..header_len], l0_tape[..header_len]);
    let l2 = encoder.decode(&l1.tape).unwrap();
    assert_eq!(l2.tape[..header_len], l1.tape[..header_len]);
    let l3 = encoder.decode(&l2.tape).unwrap();
    assert_eq!(l3.tape[..header_len], l2.tape[..header_len]);
}

#[test]
fn test_infinite_tape_initial() {
    let utm = make_utm_spec();
    let inf = InfiniteTape::new(&MyUtmSpecOptimizationHints::guess(&utm));
    let mut tape: Vec<Symbol> = Vec::new();
    inf.extend(&mut tape, 100);
    assert_eq!(tape[0], Symbol::Dollar);
    assert!(tape.len() >= 100, "tape should be at least 100 symbols: got {}", tape.len());
}

#[test]
fn test_infinite_tape_self_similar() {
    let utm = make_utm_spec();
    let inf = InfiniteTape::new(&MyUtmSpecOptimizationHints::guess(&utm));
    let mut outer_tape: Vec<Symbol> = Vec::new();
    inf.extend(&mut outer_tape, 100_000);

    let decoded = utm.decode(&utm, &outer_tape).expect("should decode the infinite UTM tape");
    let mut re_encoded = utm.encode(&decoded);
    inf.extend(&mut re_encoded, 100_000);

    assert_eq!(
        re_encoded[..100_000],
        outer_tape[..100_000],
        "re-encoded inner tape should equal the outer tape"
    );
}

#[test]
fn test_decoded_tape_no_leading_blanks() {
    let utm = make_utm_spec();
    let inf = InfiniteTape::new(&MyUtmSpecOptimizationHints::guess(&utm));
    let mut outer_tape: Vec<Symbol> = Vec::new();
    inf.extend(&mut outer_tape, 100_000);
    let decoded = utm.decode(&utm, &outer_tape).expect("should decode the infinite UTM tape");
    assert_eq!(decoded.tape[0], Symbol::Dollar, "decoded tape should start with $, not {:?}", decoded.tape[0]);
}

#[test]
fn test_decode_needs_more_than_10k_symbols() {
    let utm = make_utm_spec();
    let inf = InfiniteTape::new(&MyUtmSpecOptimizationHints::guess(&utm));

    let mut small_tape: Vec<Symbol> = Vec::new();
    inf.extend(&mut small_tape, 10_000);
    assert!(
        utm.decode(&utm, &small_tape).is_err(),
        "10k symbols should NOT be enough to decode (header_len = {})",
        inf.header_len(),
    );

    let min_len = inf.header_len() + 1_000;
    let mut big_tape: Vec<Symbol> = Vec::new();
    inf.extend(&mut big_tape, min_len);
    utm.decode(&utm, &big_tape).expect("should be able to decode a tape extended to header_len + 1000");
}

#[test]
fn get_agrees_with_extend() {
    let utm = make_utm_spec();
    let inf = InfiniteTape::new(&MyUtmSpecOptimizationHints::guess(&utm));
    let n = inf.header_len() + 500;
    let tape = inf.prefix(n);
    for i in (0..n).step_by(37) {
        assert_eq!(inf.get(i), tape[i]);
    }
    // The first cell is the code of `$`, the first symbol, after the head mark.
    let h = inf.header_len();
    assert_eq!(tape[h], Symbol::Caret);
    assert_eq!(tape[h + 5], Symbol::Comma);
}

#[test]
fn extend_keeps_a_long_enough_tape() {
    let utm = make_utm_spec();
    let inf = InfiniteTape::new(&MyUtmSpecOptimizationHints::guess(&utm));
    let mut tape = vec![Symbol::Blank; 20];
    inf.extend(&mut tape, 10);
    assert_eq!(tape, vec![Symbol::Blank; 20]);
}
