//! Small machines over byte-numbered states and symbols, for running on
//! the universal machine of that format.
use vstd::prelude::*;

use crate::byte_machine::{
    build_spec, first_named, indexed_rule, strings_chars_view, table_of, State, Symbol, TuringMachineSpec,
};
use crate::tm::Dir;

verus! {

fn s(x: &str) -> (r: String)
    ensures
        r@ == x@,
{
    x.to_string()
}

/// A name at position `i`, and at no earlier one, is found there.
proof fn lemma_named_at(names: Seq<Seq<char>>, i: int, name: Seq<char>)
    requires
        0 <= i < names.len(),
        names[i] == name,
        forall|j: int| 0 <= j < i ==> names[j] != name,
    ensures
        first_named(names, name) == Some(i),
{
    let k = choose|k: int| 0 <= k < names.len() && names[k] == name && forall|j: int| 0 <= j < k ==> names[j] != name;
    assert(names[i] == name);
    if k < i {
        assert(names[k] != name);
    } else if k > i {
        assert(names[i] != name);
    }
}

/// Writes `1` forever, moving right; its only state accepts.
pub fn write1s_forever_spec() -> (r: TuringMachineSpec)
    ensures
        r.wf(),
        strings_chars_view(r.state_names@) == seq!["init"@],
        strings_chars_view(r.symbol_names@) == seq!["_"@, "1"@],
        r.n_states == 1,
        r.n_symbols == 2,
        r.initial == State(0),
        r.blank == Symbol(0),
        r.accept == State(0),
        r.accepting@ == seq![true],
        r.ordered_rules@ == seq![(State(0), Symbol(0), State(0), Symbol(1), Dir::Right), (State(0), Symbol(1), State(0), Symbol(1), Dir::Right)],
        r.transitions@ == table_of(r.ordered_rules@),
{
    let state_names = vec![s("init")];
    let symbol_names = vec![s("_"), s("1")];
    let accepting = vec![s("init")];
    let transitions = vec![
        (s("init"), s("_"), s("init"), s("1"), Dir::Right),
        (s("init"), s("1"), s("init"), s("1"), Dir::Right),
    ];
    let initial = s("init");
    let blank = s("_");
    proof {
        reveal_strlit("1");
        reveal_strlit("_");
        reveal_strlit("init");
        assert(strings_chars_view(state_names@) =~= seq!["init"@]);
        assert(strings_chars_view(symbol_names@) =~= seq!["_"@, "1"@]);
        assert("_"@[0] != "1"@[0]);
        lemma_named_at(strings_chars_view(state_names@), 0, "init"@);
        lemma_named_at(strings_chars_view(symbol_names@), 0, "_"@);
        lemma_named_at(strings_chars_view(symbol_names@), 1, "1"@);
        assert(strings_chars_view(accepting@) =~= seq!["init"@]);
        assert(transitions@.map_values(|t: (String, String, String, String, Dir)| indexed_rule(state_names@, symbol_names@, t)) =~= seq![(State(0), Symbol(0), State(0), Symbol(1), Dir::Right), (State(0), Symbol(1), State(0), Symbol(1), Dir::Right)]);
    }
    build_spec(&state_names, &symbol_names, &initial, &blank, &accepting, &transitions)
}

/// Has no rules and starts in its accepting state.
pub fn accept_immediately_spec() -> (r: TuringMachineSpec)
    ensures
        r.wf(),
        strings_chars_view(r.state_names@) == seq!["init"@],
        strings_chars_view(r.symbol_names@) == seq!["_"@],
        r.n_states == 1,
        r.n_symbols == 1,
        r.initial == State(0),
        r.blank == Symbol(0),
        r.accept == State(0),
        r.accepting@ == seq![true],
        r.ordered_rules@ == Seq::<(State, Symbol, State, Symbol, Dir)>::empty(),
        r.transitions@ == table_of(r.ordered_rules@),
{
    let state_names = vec![s("init")];
    let symbol_names = vec![s("_")];
    let accepting = vec![s("init")];
    let transitions: Vec<(String, String, String, String, Dir)> = Vec::new();
    let initial = s("init");
    let blank = s("_");
    proof {
        reveal_strlit("_");
        reveal_strlit("init");
        assert(strings_chars_view(state_names@) =~= seq!["init"@]);
        assert(strings_chars_view(symbol_names@) =~= seq!["_"@]);
        lemma_named_at(strings_chars_view(state_names@), 0, "init"@);
        lemma_named_at(strings_chars_view(symbol_names@), 0, "_"@);
        assert(strings_chars_view(accepting@) =~= seq!["init"@]);
    }
    build_spec(&state_names, &symbol_names, &initial, &blank, &accepting, &transitions)
}

/// Has no rules and no accepting state.
pub fn reject_immediately_spec() -> (r: TuringMachineSpec)
    ensures
        r.wf(),
        strings_chars_view(r.state_names@) == seq!["init"@],
        strings_chars_view(r.symbol_names@) == seq!["_"@],
        r.n_states == 1,
        r.n_symbols == 1,
        r.initial == State(0),
        r.blank == Symbol(0),
        r.accept == State(255),
        r.accepting@ == seq![false],
        r.ordered_rules@ == Seq::<(State, Symbol, State, Symbol, Dir)>::empty(),
        r.transitions@ == table_of(r.ordered_rules@),
{
    let state_names = vec![s("init")];
    let symbol_names = vec![s("_")];
    let accepting = vec![];
    let transitions: Vec<(String, String, String, String, Dir)> = Vec::new();
    let initial = s("init");
    let blank = s("_");
    proof {
        reveal_strlit("_");
        reveal_strlit("init");
        assert(strings_chars_view(state_names@) =~= seq!["init"@]);
        assert(strings_chars_view(symbol_names@) =~= seq!["_"@]);
        lemma_named_at(strings_chars_view(state_names@), 0, "init"@);
        lemma_named_at(strings_chars_view(symbol_names@), 0, "_"@);
    }
    build_spec(&state_names, &symbol_names, &initial, &blank, &accepting, &transitions)
}

/// Flips every bit, moving right, and stops at the first blank; its only
/// state accepts.
pub fn flip_bits_spec() -> (r: TuringMachineSpec)
    ensures
        r.wf(),
        strings_chars_view(r.state_names@) == seq!["init"@],
        strings_chars_view(r.symbol_names@) == seq!["_"@, "0"@, "1"@],
        r.n_states == 1,
        r.n_symbols == 3,
        r.initial == State(0),
        r.blank == Symbol(0),
        r.accept == State(0),
        r.accepting@ == seq![true],
        r.ordered_rules@ == seq![(State(0), Symbol(1), State(0), Symbol(2), Dir::Right), (State(0), Symbol(2), State(0), Symbol(1), Dir::Right)],
        r.transitions@ == table_of(r.ordered_rules@),
{
    let state_names = vec![s("init")];
    let symbol_names = vec![s("_"), s("0"), s("1")];
    let accepting = vec![s("init")];
    let transitions = vec![
        (s("init"), s("0"), s("init"), s("1"), Dir::Right),
        (s("init"), s("1"), s("init"), s("0"), Dir::Right),
    ];
    let initial = s("init");
    let blank = s("_");
    proof {
        reveal_strlit("0");
        reveal_strlit("1");
        reveal_strlit("_");
        reveal_strlit("init");
        assert(strings_chars_view(state_names@) =~= seq!["init"@]);
        assert(strings_chars_view(symbol_names@) =~= seq!["_"@, "0"@, "1"@]);
        assert("_"@[0] != "0"@[0]);
        assert("_"@[0] != "1"@[0]);
        assert("0"@[0] != "1"@[0]);
        lemma_named_at(strings_chars_view(state_names@), 0, "init"@);
        lemma_named_at(strings_chars_view(symbol_names@), 0, "_"@);
        lemma_named_at(strings_chars_view(symbol_names@), 1, "0"@);
        lemma_named_at(strings_chars_view(symbol_names@), 2, "1"@);
        assert(strings_chars_view(accepting@) =~= seq!["init"@]);
        assert(transitions@.map_values(|t: (String, String, String, String, Dir)| indexed_rule(state_names@, symbol_names@, t)) =~= seq![(State(0), Symbol(1), State(0), Symbol(2), Dir::Right), (State(0), Symbol(2), State(0), Symbol(1), Dir::Right)]);
    }
    build_spec(&state_names, &symbol_names, &initial, &blank, &accepting, &transitions)
}

/// Accepts the palindromes over `a`, `b`, `c`: it erases the first letter,
/// carries it to the end, checks and erases the last letter there, and
/// comes back.
pub fn check_palindrome_spec() -> (r: TuringMachineSpec)
    ensures
        r.wf(),
        strings_chars_view(r.state_names@) == seq!["start"@, "accept"@, "seekL"@, "seekR_a"@, "seekR_b"@, "seekR_c"@, "check_a"@, "check_b"@, "check_c"@],
        strings_chars_view(r.symbol_names@) == seq!["_"@, "a"@, "b"@, "c"@],
        r.n_states == 9,
        r.n_symbols == 4,
        r.initial == State(0),
        r.blank == Symbol(0),
        r.accept == State(1),
        r.accepting@ == seq![false, true, false, false, false, false, false, false, false],
        r.ordered_rules@ == seq![(State(0), Symbol(0), State(1), Symbol(0), Dir::Right), (State(0), Symbol(1), State(3), Symbol(0), Dir::Right), (State(0), Symbol(2), State(4), Symbol(0), Dir::Right), (State(0), Symbol(3), State(5), Symbol(0), Dir::Right), (State(3), Symbol(0), State(6), Symbol(0), Dir::Left), (State(3), Symbol(1), State(3), Symbol(1), Dir::Right), (State(3), Symbol(2), State(3), Symbol(2), Dir::Right), (State(3), Symbol(3), State(3), Symbol(3), Dir::Right), (State(4), Symbol(0), State(7), Symbol(0), Dir::Left), (State(4), Symbol(1), State(4), Symbol(1), Dir::Right), (State(4), Symbol(2), State(4), Symbol(2), Dir::Right), (State(4), Symbol(3), State(4), Symbol(3), Dir::Right), (State(5), Symbol(0), State(8), Symbol(0), Dir::Left), (State(5), Symbol(1), State(5), Symbol(1), Dir::Right), (State(5), Symbol(2), State(5), Symbol(2), Dir::Right), (State(5), Symbol(3), State(5), Symbol(3), Dir::Right), (State(6), Symbol(0), State(1), Symbol(0), Dir::Right), (State(6), Symbol(1), State(2), Symbol(0), Dir::Left), (State(7), Symbol(0), State(1), Symbol(0), Dir::Right), (State(7), Symbol(2), State(2), Symbol(0), Dir::Left), (State(8), Symbol(0), State(1), Symbol(0), Dir::Right), (State(8), Symbol(3), State(2), Symbol(0), Dir::Left), (State(2), Symbol(0), State(0), Symbol(0), Dir::Right), (State(2), Symbol(1), State(2), Symbol(1), Dir::Left), (State(2), Symbol(2), State(2), Symbol(2), Dir::Left), (State(2), Symbol(3), State(2), Symbol(3), Dir::Left)],
        r.transitions@ == table_of(r.ordered_rules@),
{
    let state_names = vec![s("start"), s("accept"), s("seekL"), s("seekR_a"), s("seekR_b"), s("seekR_c"), s("check_a"), s("check_b"), s("check_c")];
    let symbol_names = vec![s("_"), s("a"), s("b"), s("c")];
    let accepting = vec![s("accept")];
    let transitions = vec![
        (s("start"), s("_"), s("accept"), s("_"), Dir::Right),
        (s("start"), s("a"), s("seekR_a"), s("_"), Dir::Right),
        (s("start"), s("b"), s("seekR_b"), s("_"), Dir::Right),
        (s("start"), s("c"), s("seekR_c"), s("_"), Dir::Right),
        (s("seekR_a"), s("_"), s("check_a"), s("_"), Dir::Left),
        (s("seekR_a"), s("a"), s("seekR_a"), s("a"), Dir::Right),
        (s("seekR_a"), s("b"), s("seekR_a"), s("b"), Dir::Right),
        (s("seekR_a"), s("c"), s("seekR_a"), s("c"), Dir::Right),
        (s("seekR_b"), s("_"), s("check_b"), s("_"), Dir::Left),
        (s("seekR_b"), s("a"), s("seekR_b"), s("a"), Dir::Right),
        (s("seekR_b"), s("b"), s("seekR_b"), s("b"), Dir::Right),
        (s("seekR_b"), s("c"), s("seekR_b"), s("c"), Dir::Right),
        (s("seekR_c"), s("_"), s("check_c"), s("_"), Dir::Left),
        (s("seekR_c"), s("a"), s("seekR_c"), s("a"), Dir::Right),
        (s("seekR_c"), s("b"), s("seekR_c"), s("b"), Dir::Right),
        (s("seekR_c"), s("c"), s("seekR_c"), s("c"), Dir::Right),
        (s("check_a"), s("_"), s("accept"), s("_"), Dir::Right),
        (s("check_a"), s("a"), s("seekL"), s("_"), Dir::Left),
        (s("check_b"), s("_"), s("accept"), s("_"), Dir::Right),
        (s("check_b"), s("b"), s("seekL"), s("_"), Dir::Left),
        (s("check_c"), s("_"), s("accept"), s("_"), Dir::Right),
        (s("check_c"), s("c"), s("seekL"), s("_"), Dir::Left),
        (s("seekL"), s("_"), s("start"), s("_"), Dir::Right),
        (s("seekL"), s("a"), s("seekL"), s("a"), Dir::Left),
        (s("seekL"), s("b"), s("seekL"), s("b"), Dir::Left),
        (s("seekL"), s("c"), s("seekL"), s("c"), Dir::Left),
    ];
    let initial = s("start");
    let blank = s("_");
    proof {
        reveal_strlit("_");
        reveal_strlit("a");
        reveal_strlit("accept");
        reveal_strlit("b");
        reveal_strlit("c");
        reveal_strlit("check_a");
        reveal_strlit("check_b");
        reveal_strlit("check_c");
        reveal_strlit("seekL");
        reveal_strlit("seekR_a");
        reveal_strlit("seekR_b");
        reveal_strlit("seekR_c");
        reveal_strlit("start");
        assert(strings_chars_view(state_names@) =~= seq!["start"@, "accept"@, "seekL"@, "seekR_a"@, "seekR_b"@, "seekR_c"@, "check_a"@, "check_b"@, "check_c"@]);
        assert(strings_chars_view(symbol_names@) =~= seq!["_"@, "a"@, "b"@, "c"@]);
        assert("start"@.len() != "accept"@.len());
        assert("start"@[1] != "seekL"@[1]);
        assert("accept"@.len() != "seekL"@.len());
        assert("start"@.len() != "seekR_a"@.len());
        assert("accept"@.len() != "seekR_a"@.len());
        assert("seekL"@.len() != "seekR_a"@.len());
        assert("start"@.len() != "seekR_b"@.len());
        assert("accept"@.len() != "seekR_b"@.len());
        assert("seekL"@.len() != "seekR_b"@.len());
        assert("seekR_a"@[6] != "seekR_b"@[6]);
        assert("start"@.len() != "seekR_c"@.len());
        assert("accept"@.len() != "seekR_c"@.len());
        assert("seekL"@.len() != "seekR_c"@.len());
        assert("seekR_a"@[6] != "seekR_c"@[6]);
        assert("seekR_b"@[6] != "seekR_c"@[6]);
        assert("start"@.len() != "check_a"@.len());
        assert("accept"@.len() != "check_a"@.len());
        assert("seekL"@.len() != "check_a"@.len());
        assert("seekR_a"@[0] != "check_a"@[0]);
        assert("seekR_b"@[0] != "check_a"@[0]);
        assert("seekR_c"@[0] != "check_a"@[0]);
        assert("start"@.len() != "check_b"@.len());
        assert("accept"@.len() != "check_b"@.len());
        assert("seekL"@.len() != "check_b"@.len());
        assert("seekR_a"@[0] != "check_b"@[0]);
        assert("seekR_b"@[0] != "check_b"@[0]);
        assert("seekR_c"@[0] != "check_b"@[0]);
        assert("check_a"@[6] != "check_b"@[6]);
        assert("start"@.len() != "check_c"@.len());
        assert("accept"@.len() != "check_c"@.len());
        assert("seekL"@.len() != "check_c"@.len());
        assert("seekR_a"@[0] != "check_c"@[0]);
        assert("seekR_b"@[0] != "check_c"@[0]);
        assert("seekR_c"@[0] != "check_c"@[0]);
        assert("check_a"@[6] != "check_c"@[6]);
        assert("check_b"@[6] != "check_c"@[6]);
        assert("_"@[0] != "a"@[0]);
        assert("_"@[0] != "b"@[0]);
        assert("a"@[0] != "b"@[0]);
        assert("_"@[0] != "c"@[0]);
        assert("a"@[0] != "c"@[0]);
        assert("b"@[0] != "c"@[0]);
        lemma_named_at(strings_chars_view(state_names@), 0, "start"@);
        lemma_named_at(strings_chars_view(state_names@), 1, "accept"@);
        lemma_named_at(strings_chars_view(state_names@), 2, "seekL"@);
        lemma_named_at(strings_chars_view(state_names@), 3, "seekR_a"@);
        lemma_named_at(strings_chars_view(state_names@), 4, "seekR_b"@);
        lemma_named_at(strings_chars_view(state_names@), 5, "seekR_c"@);
        lemma_named_at(strings_chars_view(state_names@), 6, "check_a"@);
        lemma_named_at(strings_chars_view(state_names@), 7, "check_b"@);
        lemma_named_at(strings_chars_view(state_names@), 8, "check_c"@);
        lemma_named_at(strings_chars_view(symbol_names@), 0, "_"@);
        lemma_named_at(strings_chars_view(symbol_names@), 1, "a"@);
        lemma_named_at(strings_chars_view(symbol_names@), 2, "b"@);
        lemma_named_at(strings_chars_view(symbol_names@), 3, "c"@);
        assert(strings_chars_view(accepting@) =~= seq!["accept"@]);
        assert(transitions@.map_values(|t: (String, String, String, String, Dir)| indexed_rule(state_names@, symbol_names@, t)) =~= seq![(State(0), Symbol(0), State(1), Symbol(0), Dir::Right), (State(0), Symbol(1), State(3), Symbol(0), Dir::Right), (State(0), Symbol(2), State(4), Symbol(0), Dir::Right), (State(0), Symbol(3), State(5), Symbol(0), Dir::Right), (State(3), Symbol(0), State(6), Symbol(0), Dir::Left), (State(3), Symbol(1), State(3), Symbol(1), Dir::Right), (State(3), Symbol(2), State(3), Symbol(2), Dir::Right), (State(3), Symbol(3), State(3), Symbol(3), Dir::Right), (State(4), Symbol(0), State(7), Symbol(0), Dir::Left), (State(4), Symbol(1), State(4), Symbol(1), Dir::Right), (State(4), Symbol(2), State(4), Symbol(2), Dir::Right), (State(4), Symbol(3), State(4), Symbol(3), Dir::Right), (State(5), Symbol(0), State(8), Symbol(0), Dir::Left), (State(5), Symbol(1), State(5), Symbol(1), Dir::Right), (State(5), Symbol(2), State(5), Symbol(2), Dir::Right), (State(5), Symbol(3), State(5), Symbol(3), Dir::Right), (State(6), Symbol(0), State(1), Symbol(0), Dir::Right), (State(6), Symbol(1), State(2), Symbol(0), Dir::Left), (State(7), Symbol(0), State(1), Symbol(0), Dir::Right), (State(7), Symbol(2), State(2), Symbol(0), Dir::Left), (State(8), Symbol(0), State(1), Symbol(0), Dir::Right), (State(8), Symbol(3), State(2), Symbol(0), Dir::Left), (State(2), Symbol(0), State(0), Symbol(0), Dir::Right), (State(2), Symbol(1), State(2), Symbol(1), Dir::Left), (State(2), Symbol(2), State(2), Symbol(2), Dir::Left), (State(2), Symbol(3), State(2), Symbol(3), Dir::Left)]);
    }
    build_spec(&state_names, &symbol_names, &initial, &blank, &accepting, &transitions)
}

/// On `$` followed by `X`s, doubles the number of `X`s.
pub fn double_x_spec() -> (r: TuringMachineSpec)
    ensures
        r.wf(),
        strings_chars_view(r.state_names@) == seq!["start"@, "findX"@, "goRight"@, "goBack"@, "cleanL"@, "cleanR"@, "done"@],
        strings_chars_view(r.symbol_names@) == seq!["_"@, "$"@, "X"@, "Y"@, "Z"@],
        r.n_states == 7,
        r.n_symbols == 5,
        r.initial == State(0),
        r.blank == Symbol(0),
        r.accept == State(6),
        r.accepting@ == seq![false, false, false, false, false, false, true],
        r.ordered_rules@ == seq![(State(0), Symbol(1), State(1), Symbol(1), Dir::Right), (State(1), Symbol(2), State(2), Symbol(3), Dir::Right), (State(1), Symbol(3), State(1), Symbol(3), Dir::Right), (State(1), Symbol(4), State(4), Symbol(4), Dir::Left), (State(1), Symbol(0), State(6), Symbol(0), Dir::Left), (State(2), Symbol(2), State(2), Symbol(2), Dir::Right), (State(2), Symbol(4), State(2), Symbol(4), Dir::Right), (State(2), Symbol(0), State(3), Symbol(4), Dir::Left), (State(3), Symbol(2), State(3), Symbol(2), Dir::Left), (State(3), Symbol(3), State(3), Symbol(3), Dir::Left), (State(3), Symbol(4), State(3), Symbol(4), Dir::Left), (State(3), Symbol(1), State(1), Symbol(1), Dir::Right), (State(4), Symbol(3), State(4), Symbol(2), Dir::Left), (State(4), Symbol(1), State(5), Symbol(1), Dir::Right), (State(5), Symbol(2), State(5), Symbol(2), Dir::Right), (State(5), Symbol(4), State(5), Symbol(2), Dir::Right), (State(5), Symbol(0), State(6), Symbol(0), Dir::Left)],
        r.transitions@ == table_of(r.ordered_rules@),
{
    let state_names = vec![s("start"), s("findX"), s("goRight"), s("goBack"), s("cleanL"), s("cleanR"), s("done")];
    let symbol_names = vec![s("_"), s("$"), s("X"), s("Y"), s("Z")];
    let accepting = vec![s("done")];
    let transitions = vec![
        (s("start"), s("$"), s("findX"), s("$"), Dir::Right),
        (s("findX"), s("X"), s("goRight"), s("Y"), Dir::Right),
        (s("findX"), s("Y"), s("findX"), s("Y"), Dir::Right),
        (s("findX"), s("Z"), s("cleanL"), s("Z"), Dir::Left),
        (s("findX"), s("_"), s("done"), s("_"), Dir::Left),
        (s("goRight"), s("X"), s("goRight"), s("X"), Dir::Right),
        (s("goRight"), s("Z"), s("goRight"), s("Z"), Dir::Right),
        (s("goRight"), s("_"), s("goBack"), s("Z"), Dir::Left),
        (s("goBack"), s("X"), s("goBack"), s("X"), Dir::Left),
        (s("goBack"), s("Y"), s("goBack"), s("Y"), Dir::Left),
        (s("goBack"), s("Z"), s("goBack"), s("Z"), Dir::Left),
        (s("goBack"), s("$"), s("findX"), s("$"), Dir::Right),
        (s("cleanL"), s("Y"), s("cleanL"), s("X"), Dir::Left),
        (s("cleanL"), s("$"), s("cleanR"), s("$"), Dir::Right),
        (s("cleanR"), s("X"), s("cleanR"), s("X"), Dir::Right),
        (s("cleanR"), s("Z"), s("cleanR"), s("X"), Dir::Right),
        (s("cleanR"), s("_"), s("done"), s("_"), Dir::Left),
    ];
    let initial = s("start");
    let blank = s("_");
    proof {
        reveal_strlit("$");
        reveal_strlit("X");
        reveal_strlit("Y");
        reveal_strlit("Z");
        reveal_strlit("_");
        reveal_strlit("cleanL");
        reveal_strlit("cleanR");
        reveal_strlit("done");
        reveal_strlit("findX");
        reveal_strlit("goBack");
        reveal_strlit("goRight");
        reveal_strlit("start");
        assert(strings_chars_view(state_names@) =~= seq!["start"@, "findX"@, "goRight"@, "goBack"@, "cleanL"@, "cleanR"@, "done"@]);
        assert(strings_chars_view(symbol_names@) =~= seq!["_"@, "$"@, "X"@, "Y"@, "Z"@]);
        assert("start"@[0] != "findX"@[0]);
        assert("start"@.len() != "goRight"@.len());
        assert("findX"@.len() != "goRight"@.len());
        assert("start"@.len() != "goBack"@.len());
        assert("findX"@.len() != "goBack"@.len());
        assert("goRight"@.len() != "goBack"@.len());
        assert("start"@.len() != "cleanL"@.len());
        assert("findX"@.len() != "cleanL"@.len());
        assert("goRight"@.len() != "cleanL"@.len());
        assert("goBack"@[0] != "cleanL"@[0]);
        assert("start"@.len() != "cleanR"@.len());
        assert("findX"@.len() != "cleanR"@.len());
        assert("goRight"@.len() != "cleanR"@.len());
        assert("goBack"@[0] != "cleanR"@[0]);
        assert("cleanL"@[5] != "cleanR"@[5]);
        assert("start"@.len() != "done"@.len());
        assert("findX"@.len() != "done"@.len());
        assert("goRight"@.len() != "done"@.len());
        assert("goBack"@.len() != "done"@.len());
        assert("cleanL"@.len() != "done"@.len());
        assert("cleanR"@.len() != "done"@.len());
        assert("_"@[0] != "$"@[0]);
        assert("_"@[0] != "X"@[0]);
        assert("$"@[0] != "X"@[0]);
        assert("_"@[0] != "Y"@[0]);
        assert("$"@[0] != "Y"@[0]);
        assert("X"@[0] != "Y"@[0]);
        assert("_"@[0] != "Z"@[0]);
        assert("$"@[0] != "Z"@[0]);
        assert("X"@[0] != "Z"@[0]);
        assert("Y"@[0] != "Z"@[0]);
        lemma_named_at(strings_chars_view(state_names@), 0, "start"@);
        lemma_named_at(strings_chars_view(state_names@), 1, "findX"@);
        lemma_named_at(strings_chars_view(state_names@), 2, "goRight"@);
        lemma_named_at(strings_chars_view(state_names@), 3, "goBack"@);
        lemma_named_at(strings_chars_view(state_names@), 4, "cleanL"@);
        lemma_named_at(strings_chars_view(state_names@), 5, "cleanR"@);
        lemma_named_at(strings_chars_view(state_names@), 6, "done"@);
        lemma_named_at(strings_chars_view(symbol_names@), 0, "_"@);
        lemma_named_at(strings_chars_view(symbol_names@), 1, "$"@);
        lemma_named_at(strings_chars_view(symbol_names@), 2, "X"@);
        lemma_named_at(strings_chars_view(symbol_names@), 3, "Y"@);
        lemma_named_at(strings_chars_view(symbol_names@), 4, "Z"@);
        assert(strings_chars_view(accepting@) =~= seq!["done"@]);
        assert(transitions@.map_values(|t: (String, String, String, String, Dir)| indexed_rule(state_names@, symbol_names@, t)) =~= seq![(State(0), Symbol(1), State(1), Symbol(1), Dir::Right), (State(1), Symbol(2), State(2), Symbol(3), Dir::Right), (State(1), Symbol(3), State(1), Symbol(3), Dir::Right), (State(1), Symbol(4), State(4), Symbol(4), Dir::Left), (State(1), Symbol(0), State(6), Symbol(0), Dir::Left), (State(2), Symbol(2), State(2), Symbol(2), Dir::Right), (State(2), Symbol(4), State(2), Symbol(4), Dir::Right), (State(2), Symbol(0), State(3), Symbol(4), Dir::Left), (State(3), Symbol(2), State(3), Symbol(2), Dir::Left), (State(3), Symbol(3), State(3), Symbol(3), Dir::Left), (State(3), Symbol(4), State(3), Symbol(4), Dir::Left), (State(3), Symbol(1), State(1), Symbol(1), Dir::Right), (State(4), Symbol(3), State(4), Symbol(2), Dir::Left), (State(4), Symbol(1), State(5), Symbol(1), Dir::Right), (State(5), Symbol(2), State(5), Symbol(2), Dir::Right), (State(5), Symbol(4), State(5), Symbol(2), Dir::Right), (State(5), Symbol(0), State(6), Symbol(0), Dir::Left)]);
    }
    build_spec(&state_names, &symbol_names, &initial, &blank, &accepting, &transitions)
}
} // verus!
