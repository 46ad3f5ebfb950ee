use utmmmmm::rule_search::rule_search_totals;

#[test]
fn one_rule_that_matches_costs_one_of_each() {
    let r = rule_search_totals(&vec![(0, 0)], &vec![(0, 0)], &vec![1], 1, 1, 1);
    assert_eq!(r, (1, 1, 1));
}

#[test]
fn a_state_mismatch_skips_the_symbol() {
    let r = rule_search_totals(&vec![(1, 0), (0, 0)], &vec![(1, 0)], &vec![5], 1, 1, 3);
    assert_eq!(r, (6, 6, 3));
}

#[test]
fn state_bits_are_compared_from_the_top_until_they_differ() {
    let r = rule_search_totals(&vec![(2, 1)], &vec![(3, 1)], &vec![2], 2, 2, 2);
    assert_eq!(r, (2, 4, 0));
}

#[test]
fn no_iterations_cost_nothing() {
    let r = rule_search_totals(&vec![(2, 1)], &vec![(3, 1)], &vec![2], 2, 2, 0);
    assert_eq!(r, (0, 0, 0));
}
