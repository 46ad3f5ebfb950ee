use utmmmmm::delta::{compute_new_overwrites, current_overwrites};
use utmmmmm::encoding::MyUtmSpecOptimizationHints;
use utmmmmm::infinity::InfiniteTape;
use utmmmmm::utm::make_utm_spec;
use utmmmmm::utm_symbols::Symbol;

#[test]
fn test_total_then_two_deltas() {
    let utm = make_utm_spec();
    let background = InfiniteTape::new(&MyUtmSpecOptimizationHints::guess(&utm));

    // === Total event: tape has position 1 changed ===
    let mut tape = vec![];
    background.extend(&mut tape, 5);

    tape[1] = Symbol::Caret;
    let mut client = current_overwrites(&tape, &background);
    assert_eq!(client, vec![(1, Symbol::Caret)]);

    tape[2] = Symbol::Caret;
    let delta = compute_new_overwrites(&current_overwrites(&tape, &background), &mut client, &background);
    assert_eq!(delta, vec![(2, Symbol::Caret)]);
    assert_eq!(client, vec![(1, Symbol::Caret), (2, Symbol::Caret)]);

    tape[1] = background.get(1);
    tape[3] = Symbol::Caret;
    let delta = compute_new_overwrites(&current_overwrites(&tape, &background), &mut client, &background);
    assert_eq!(delta, vec![(1, background.get(1)), (3, Symbol::Caret)]);
    // It no longer remembers 1 because that position is the same as the background now.
    assert_eq!(client, vec![(2, Symbol::Caret), (3, Symbol::Caret)]);
}

#[test]
fn unchanged_overwrites_send_nothing() {
    let utm = make_utm_spec();
    let background = InfiniteTape::new(&MyUtmSpecOptimizationHints::guess(&utm));
    let mut tape = background.prefix(10);
    tape[4] = Symbol::Star;
    let current = current_overwrites(&tape, &background);
    let mut client = current.clone();
    let delta = compute_new_overwrites(&current, &mut client, &background);
    assert!(delta.is_empty());
    assert_eq!(client, current);
}

#[test]
fn a_clean_tape_has_no_overwrites() {
    let utm = make_utm_spec();
    let background = InfiniteTape::new(&MyUtmSpecOptimizationHints::guess(&utm));
    let tape = background.prefix(50);
    assert!(current_overwrites(&tape, &background).is_empty());
}
