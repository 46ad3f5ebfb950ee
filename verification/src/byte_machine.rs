//! Machines whose states and symbols are bytes, with a transition table
//! indexed by `state * 256 + symbol`, built from named rules; and the
//! tape layout `$ # RULES # ACCEPT # STATE # BLANK # TAPE` that describes
//! such a machine to a universal machine.
use vstd::prelude::*;
use vstd::string::StrSliceExecFns;

use crate::binary::{all_bits, binary, lemma_binary_len, num_bits, spec_num_bits, symbols_value, low_bits};
use crate::encoding::{hash_positions, hash_positions_of, parse_cells, parse_ok, read_cells};
use crate::utm_symbols::Symbol as TapeSymbol;
use crate::keyed::{compare_names, Comparison};
use crate::tm::Dir;

verus! {

/// A state: its position in the machine's list of states.
#[derive(Debug, Clone, Copy, PartialEq, Eq, Structural)]
pub struct State(pub u8);

/// A symbol: its position in the machine's list of symbols.
#[derive(Debug, Clone, Copy, PartialEq, Eq, Structural)]
pub struct Symbol(pub u8);

/// The symbols of a universal machine's tape.
pub const SYM_BLANK: u8 = 0;
pub const SYM_ZERO: u8 = 1;
pub const SYM_ONE: u8 = 2;
pub const SYM_X: u8 = 3;
pub const SYM_Y: u8 = 4;
pub const SYM_HASH: u8 = 5;
pub const SYM_PIPE: u8 = 6;
pub const SYM_SEMI: u8 = 7;
pub const SYM_COMMA: u8 = 8;
pub const SYM_CARET: u8 = 9;
pub const SYM_L: u8 = 10;
pub const SYM_D: u8 = 11;
pub const SYM_DOT: u8 = 12;
pub const SYM_STAR: u8 = 13;
pub const SYM_GT: u8 = 14;
pub const SYM_DOLLAR: u8 = 15;
pub const N_SYMBOLS: usize = 16;

/// The number of entries of a transition table.
pub const TABLE_ENTRIES: usize = 65536;

/// A machine description: a transition table indexed by
/// `state * 256 + symbol`, acceptance per state, the names of the states
/// and symbols, and the rules in the order they were given.
pub struct TuringMachineSpec {
    pub n_states: usize,
    pub n_symbols: usize,
    pub initial: State,
    /// The first accepting state named, or `State(255)` where none is.
    pub accept: State,
    pub blank: Symbol,
    pub accepting: Vec<bool>,
    pub transitions: Vec<Option<(State, Symbol, Dir)>>,
    pub state_names: Vec<String>,
    pub symbol_names: Vec<String>,
    pub ordered_rules: Vec<(State, Symbol, State, Symbol, Dir)>,
}

/// The table entry of a state and a symbol.
pub open spec fn table_index(state: State, sym: Symbol) -> int {
    state.0 as int * 256 + sym.0 as int
}

impl TuringMachineSpec {
    /// The table has an entry for every state and symbol.
    pub open spec fn wf(&self) -> bool {
        self.transitions@.len() == TABLE_ENTRIES
    }

    /// The rule for a state and a symbol, if any.
    pub fn get_transition(&self, state: State, sym: Symbol) -> (r: Option<(State, Symbol, Dir)>)
        requires
            self.wf(),
        ensures
            r == self.transitions@[table_index(state, sym)],
    {
        self.transitions[state.0 as usize * 256 + sym.0 as usize]
    }

    /// Whether a state accepts; a state past the list does not.
    pub fn is_accepting(&self, state: State) -> (r: bool)
        ensures
            r == ((state.0 as int) < self.accepting@.len() && self.accepting@[state.0 as int]),
    {
        if (state.0 as usize) < self.accepting.len() {
            self.accepting[state.0 as usize]
        } else {
            false
        }
    }

    /// The state with this name: the first of that name.
    pub fn state_index(&self, name: &str) -> (r: Option<State>)
        requires
            self.state_names@.len() <= 256,
        ensures
            r == match first_named(strings_chars_view(self.state_names@), name@) {
                Some(i) => Some(State(i as u8)),
                None => None::<State>,
            },
    {
        match find_name(&self.state_names, &str_chars(name)) {
            Some(i) => Some(State(i as u8)),
            None => None,
        }
    }

    /// The symbol with this name: the first of that name.
    pub fn symbol_index(&self, name: &str) -> (r: Option<Symbol>)
        requires
            self.symbol_names@.len() <= 256,
        ensures
            r == match first_named(strings_chars_view(self.symbol_names@), name@) {
                Some(i) => Some(Symbol(i as u8)),
                None => None::<Symbol>,
            },
    {
        match find_name(&self.symbol_names, &str_chars(name)) {
            Some(i) => Some(Symbol(i as u8)),
            None => None,
        }
    }
}

/// The characters of each string.
pub open spec fn strings_chars_view(v: Seq<String>) -> Seq<Seq<char>> {
    v.map_values(|s: String| s@)
}

/// The position of the first name equal to `name`, if any.
pub open spec fn first_named(names: Seq<Seq<char>>, name: Seq<char>) -> Option<int> {
    if exists|i: int| 0 <= i < names.len() && names[i] == name {
        Some(choose|i: int| 0 <= i < names.len() && names[i] == name && forall|j: int| 0 <= j < i ==> names[j] != name)
    } else {
        None
    }
}

/// The characters of a string.
fn str_chars(s: &str) -> (r: Vec<char>)
    ensures
        r@ == s@,
{
    let n = s.unicode_len();
    let mut r: Vec<char> = Vec::new();
    let mut i: usize = 0;
    while i < n
        invariant
            n == s@.len(),
            i <= n,
            r@ == s@.take(i as int),
        decreases n - i,
    {
        let c = s.get_char(i);
        r.push(c);
        assert(r@ =~= s@.take(i + 1));
        i = i + 1;
    }
    assert(s@.take(i as int) =~= s@);
    r
}

/// The position of the first name of a list equal to `name`, if any.
fn find_name(names: &Vec<String>, name: &Vec<char>) -> (r: Option<usize>)
    ensures
        match r {
            Some(i) => i < names@.len() && first_named(strings_chars_view(names@), name@) == Some(i as int),
            None => first_named(strings_chars_view(names@), name@) is None,
        },
{
    let ghost nv = strings_chars_view(names@);
    let mut i: usize = 0;
    while i < names.len()
        invariant
            nv == strings_chars_view(names@),
            i <= names@.len(),
            forall|j: int| 0 <= j < i ==> nv[j] != name@,
        decreases names.len() - i,
    {
        let c = str_chars(names[i].as_str());
        assert(nv[i as int] == names@[i as int]@);
        if compare_names(&c, name) == Comparison::Equal {
            proof {
                let k = choose|k: int| 0 <= k < nv.len() && nv[k] == name@ && forall|j: int| 0 <= j < k ==> nv[j] != name@;
                assert(nv[i as int] == name@);
                if k < i {
                    assert(nv[k] != name@);
                } else if k > i {
                    assert(nv[i as int] != name@);
                }
            }
            return Some(i);
        }
        i = i + 1;
    }
    None
}

/// The position of a name that occurs in the list.
pub open spec fn name_pos(names: Seq<String>, name: Seq<char>) -> int {
    first_named(strings_chars_view(names), name)->0
}

/// Every name occurs in the list.
pub open spec fn all_named(names: Seq<String>, wanted: Seq<Seq<char>>) -> bool {
    forall|k: int| 0 <= k < wanted.len() ==> (#[trigger] first_named(strings_chars_view(names), wanted[k])) is Some
}

/// A rule given by names, as positions.
pub open spec fn indexed_rule(
    sn: Seq<String>,
    yn: Seq<String>,
    t: (String, String, String, String, Dir),
) -> (State, Symbol, State, Symbol, Dir) {
    (
        State(name_pos(sn, t.0@) as u8),
        Symbol(name_pos(yn, t.1@) as u8),
        State(name_pos(sn, t.2@) as u8),
        Symbol(name_pos(yn, t.3@) as u8),
        t.4,
    )
}

/// The table that entering the rules in order gives: a later rule for the
/// same state and symbol replaces an earlier one.
pub open spec fn table_of(rules: Seq<(State, Symbol, State, Symbol, Dir)>) -> Seq<Option<(State, Symbol, Dir)>>
    decreases rules.len(),
{
    if rules.len() == 0 {
        Seq::new(TABLE_ENTRIES as nat, |i: int| None)
    } else {
        let r = rules.last();
        table_of(rules.drop_last()).update(table_index(r.0, r.1), Some((r.2, r.3, r.4)))
    }
}

pub proof fn lemma_table_of_len(rules: Seq<(State, Symbol, State, Symbol, Dir)>)
    ensures
        table_of(rules).len() == TABLE_ENTRIES,
    decreases rules.len(),
{
    if rules.len() > 0 {
        lemma_table_of_len(rules.drop_last());
    }
}

/// The position of a name that must occur in the list.
fn position_of(names: &Vec<String>, name: &String) -> (r: usize)
    requires
        first_named(strings_chars_view(names@), name@) is Some,
        names@.len() <= 256,
    ensures
        r as int == name_pos(names@, name@),
        r < names@.len(),
{
    let c = str_chars(name.as_str());
    match find_name(names, &c) {
        Some(i) => i,
        None => {
            assert(false);
            0
        },
    }
}

/// A copy of a vector of strings.
fn copy_strings(v: &Vec<String>) -> (r: Vec<String>)
    ensures
        r@ == v@,
{
    let mut r: Vec<String> = Vec::new();
    let mut i: usize = 0;
    while i < v.len()
        invariant
            i <= v@.len(),
            r@ == v@.take(i as int),
        decreases v.len() - i,
    {
        r.push(v[i].clone());
        assert(r@ =~= v@.take(i + 1));
        i = i + 1;
    }
    assert(v@.take(i as int) =~= v@);
    r
}

/// Whether each state is named among the accepting ones.
fn acceptance(state_names: &Vec<String>, accepting: &Vec<String>) -> (acc: Vec<bool>)
    requires
        state_names@.len() <= 256,
        all_named(state_names@, strings_chars_view(accepting@)),
    ensures
        acc@.len() == state_names@.len(),
        forall|i: int|
            0 <= i < state_names@.len() ==> #[trigger] acc@[i] == exists|k: int|
                0 <= k < accepting@.len() && name_pos(state_names@, (#[trigger] accepting@[k])@) == i,
{
    let n_states = state_names.len();
    let mut acc: Vec<bool> = Vec::new();
    while acc.len() < n_states
        invariant
            acc@.len() <= n_states,
            forall|i: int| 0 <= i < acc@.len() ==> !#[trigger] acc@[i],
        decreases n_states - acc@.len(),
    {
        acc.push(false);
    }
    let mut a: usize = 0;
    while a < accepting.len()
        invariant
            n_states == state_names@.len(),
            state_names@.len() <= 256,
            all_named(state_names@, strings_chars_view(accepting@)),
            a <= accepting@.len(),
            acc@.len() == n_states,
            forall|i: int|
                0 <= i < n_states ==> #[trigger] acc@[i] == exists|k: int|
                    0 <= k < a && name_pos(state_names@, (#[trigger] accepting@[k])@) == i,
        decreases accepting.len() - a,
    {
        assert(strings_chars_view(accepting@)[a as int] == accepting@[a as int]@);
        let p = position_of(state_names, &accepting[a]);
        acc.set(p, true);
        proof {
            assert forall|i: int| 0 <= i < n_states implies #[trigger] acc@[i] == exists|k: int|
                0 <= k < a + 1 && name_pos(state_names@, (#[trigger] accepting@[k])@) == i by {
                if i == p {
                    assert(name_pos(state_names@, accepting@[a as int]@) == i);
                } else if acc@[i] {
                    let k = choose|k: int| 0 <= k < a && name_pos(state_names@, (#[trigger] accepting@[k])@) == i;
                }
            }
        }
        a = a + 1;
    }
    acc
}

/// The rules given by names, every name in the lists.
pub open spec fn rules_named(
    state_names: Seq<String>,
    symbol_names: Seq<String>,
    transitions: Seq<(String, String, String, String, Dir)>,
) -> bool {
    forall|k: int|
        0 <= k < transitions.len() ==> {
            let t = #[trigger] transitions[k];
            &&& first_named(strings_chars_view(state_names), t.0@) is Some
            &&& first_named(strings_chars_view(symbol_names), t.1@) is Some
            &&& first_named(strings_chars_view(state_names), t.2@) is Some
            &&& first_named(strings_chars_view(symbol_names), t.3@) is Some
        }
}

/// The rules as positions, in order, and the table they give.
fn rule_table(
    state_names: &Vec<String>,
    symbol_names: &Vec<String>,
    transitions: &Vec<(String, String, String, String, Dir)>,
) -> (r: (Vec<Option<(State, Symbol, Dir)>>, Vec<(State, Symbol, State, Symbol, Dir)>))
    requires
        state_names@.len() <= 256,
        symbol_names@.len() <= 256,
        rules_named(state_names@, symbol_names@, transitions@),
    ensures
        r.1@ == transitions@.map_values(
            |t: (String, String, String, String, Dir)| indexed_rule(state_names@, symbol_names@, t),
        ),
        r.0@ == table_of(r.1@),
        r.0@.len() == TABLE_ENTRIES,
{
    let mut trans: Vec<Option<(State, Symbol, Dir)>> = Vec::new();
    while trans.len() < TABLE_ENTRIES
        invariant
            trans@.len() <= TABLE_ENTRIES,
            forall|i: int| 0 <= i < trans@.len() ==> #[trigger] trans@[i] == None::<(State, Symbol, Dir)>,
        decreases TABLE_ENTRIES - trans@.len(),
    {
        trans.push(None);
    }
    let ghost want = transitions@.map_values(
        |t: (String, String, String, String, Dir)| indexed_rule(state_names@, symbol_names@, t),
    );
    let mut ordered: Vec<(State, Symbol, State, Symbol, Dir)> = Vec::new();
    assert(trans@ =~= table_of(ordered@));
    let mut k: usize = 0;
    while k < transitions.len()
        invariant
            state_names@.len() <= 256,
            symbol_names@.len() <= 256,
            want == transitions@.map_values(
                |t: (String, String, String, String, Dir)| indexed_rule(state_names@, symbol_names@, t),
            ),
            rules_named(state_names@, symbol_names@, transitions@),
            k <= transitions@.len(),
            ordered@ == want.take(k as int),
            trans@ == table_of(ordered@),
        decreases transitions.len() - k,
    {
        let t = &transitions[k];
        assert(transitions@[k as int] == *t);
        let st = State(position_of(state_names, &t.0) as u8);
        let sy = Symbol(position_of(symbol_names, &t.1) as u8);
        let ns = State(position_of(state_names, &t.2) as u8);
        let nsym = Symbol(position_of(symbol_names, &t.3) as u8);
        let rule = (st, sy, ns, nsym, t.4);
        assert(rule == want[k as int]);
        proof {
            lemma_table_of_len(ordered@);
        }
        trans.set(st.0 as usize * 256 + sy.0 as usize, Some((ns, nsym, t.4)));
        let ghost before = ordered@;
        ordered.push(rule);
        assert(ordered@.drop_last() =~= before);
        assert(ordered@ =~= want.take(k + 1));
        k = k + 1;
    }
    assert(want.take(k as int) =~= want);
    proof {
        lemma_table_of_len(ordered@);
    }
    (trans, ordered)
}

/// Builds a machine from named states, symbols and rules.  Every name
/// that the initial state, the blank, the accepting states and the rules
/// use must be in the lists.
pub fn build_spec(
    state_names: &Vec<String>,
    symbol_names: &Vec<String>,
    initial: &String,
    blank: &String,
    accepting: &Vec<String>,
    transitions: &Vec<(String, String, String, String, Dir)>,
) -> (r: TuringMachineSpec)
    requires
        state_names@.len() <= 256,
        symbol_names@.len() <= 256,
        first_named(strings_chars_view(state_names@), initial@) is Some,
        first_named(strings_chars_view(symbol_names@), blank@) is Some,
        all_named(state_names@, strings_chars_view(accepting@)),
        rules_named(state_names@, symbol_names@, transitions@),
    ensures
        r.wf(),
        r.n_states == state_names@.len(),
        r.n_symbols == symbol_names@.len(),
        r.state_names@ == state_names@,
        r.symbol_names@ == symbol_names@,
        r.initial == State(name_pos(state_names@, initial@) as u8),
        r.blank == Symbol(name_pos(symbol_names@, blank@) as u8),
        r.accept == if accepting@.len() > 0 {
            State(name_pos(state_names@, accepting@[0]@) as u8)
        } else {
            State(255)
        },
        r.accepting@.len() == state_names@.len(),
        forall|i: int|
            0 <= i < state_names@.len() ==> #[trigger] r.accepting@[i] == exists|k: int|
                0 <= k < accepting@.len() && name_pos(state_names@, (#[trigger] accepting@[k])@) == i,
        r.ordered_rules@ == transitions@.map_values(
            |t: (String, String, String, String, Dir)| indexed_rule(state_names@, symbol_names@, t),
        ),
        r.transitions@ == table_of(r.ordered_rules@),
{
    let initial_idx = State(position_of(state_names, initial) as u8);
    let blank_idx = Symbol(position_of(symbol_names, blank) as u8);
    let acc = acceptance(state_names, accepting);
    let (trans, ordered) = rule_table(state_names, symbol_names, transitions);
    let accept = if accepting.len() > 0 {
        assert(strings_chars_view(accepting@)[0] == accepting@[0]@);
        State(position_of(state_names, &accepting[0]) as u8)
    } else {
        State(255)
    };
    TuringMachineSpec {
        n_states: state_names.len(),
        n_symbols: symbol_names.len(),
        initial: initial_idx,
        accept,
        blank: blank_idx,
        accepting: acc,
        transitions: trans,
        state_names: copy_strings(state_names),
        symbol_names: copy_strings(symbol_names),
        ordered_rules: ordered,
    }
}

/// The code of a number: its low `width` bits, most significant first, as
/// `1` and `0`.
pub open spec fn bit_code(v: nat, width: nat) -> Seq<Symbol> {
    binary(v, width).map_values(|b: bool| if b { Symbol(SYM_ONE) } else { Symbol(SYM_ZERO) })
}

/// The tape symbol of a direction: `l` or `d`.
pub open spec fn dir_code(d: Dir) -> Symbol {
    match d {
        Dir::Left => Symbol(SYM_L),
        Dir::Right => Symbol(SYM_D),
    }
}

/// `. state | symbol | new state | new symbol | direction`.
pub open spec fn rule_code(r: (State, Symbol, State, Symbol, Dir), sb: nat, yb: nat) -> Seq<Symbol> {
    seq![Symbol(SYM_DOT)] + bit_code(r.0.0 as nat, sb) + seq![Symbol(SYM_PIPE)] + bit_code(r.1.0 as nat, yb)
        + seq![Symbol(SYM_PIPE)] + bit_code(r.2.0 as nat, sb) + seq![Symbol(SYM_PIPE)] + bit_code(r.3.0 as nat, yb)
        + seq![Symbol(SYM_PIPE), dir_code(r.4)]
}

/// The rules, separated by `;`.
pub open spec fn rules_code(rules: Seq<(State, Symbol, State, Symbol, Dir)>, sb: nat, yb: nat) -> Seq<Symbol>
    decreases rules.len(),
{
    if rules.len() == 0 {
        Seq::empty()
    } else if rules.len() == 1 {
        rule_code(rules[0], sb, yb)
    } else {
        rules_code(rules.drop_last(), sb, yb) + seq![Symbol(SYM_SEMI)] + rule_code(rules.last(), sb, yb)
    }
}

/// The codes of the accepting states among the first `upto`, separated by
/// `;`.
pub open spec fn accepting_code(acc: Seq<bool>, sb: nat, upto: nat) -> Seq<Symbol>
    decreases upto,
{
    if upto == 0 {
        Seq::empty()
    } else {
        let prev = accepting_code(acc, sb, (upto - 1) as nat);
        if acc[upto - 1] {
            if prev.len() == 0 {
                bit_code((upto - 1) as nat, sb)
            } else {
                prev + seq![Symbol(SYM_SEMI)] + bit_code((upto - 1) as nat, sb)
            }
        } else {
            prev
        }
    }
}

/// The symbol of cell `i`: the input's, or the blank past its end.
pub open spec fn cell_value(input: Seq<Symbol>, blank: Symbol, i: nat) -> nat {
    if i < input.len() {
        input[i as int].0 as nat
    } else {
        blank.0 as nat
    }
}

/// Cell `i`: a `,` before every cell but the first, `^` before the head's
/// cell, then the code of its symbol.
pub open spec fn cell_code(input: Seq<Symbol>, blank: Symbol, head: nat, yb: nat, i: nat) -> Seq<Symbol> {
    (if i > 0 { seq![Symbol(SYM_COMMA)] } else { Seq::empty() }) + (if i == head {
        seq![Symbol(SYM_CARET)]
    } else {
        Seq::empty()
    }) + bit_code(cell_value(input, blank, i), yb)
}

/// The first `n` cells.
pub open spec fn cells_code(input: Seq<Symbol>, blank: Symbol, head: nat, yb: nat, n: nat) -> Seq<Symbol>
    decreases n,
{
    if n == 0 {
        Seq::empty()
    } else {
        cells_code(input, blank, head, yb, (n - 1) as nat) + cell_code(input, blank, head, yb, (n - 1) as nat)
    }
}

/// The number of cells written: the input's, or one blank cell for an
/// empty input.
pub open spec fn tape_cells(input: Seq<Symbol>) -> nat {
    if input.len() == 0 {
        1
    } else {
        input.len()
    }
}

/// `$ # RULES # ACCEPT # STATE # BLANK # TAPE`.
pub open spec fn encode_spec(g: &TuringMachineSpec, input: Seq<Symbol>, head: nat, state: State) -> Seq<Symbol> {
    let sb = spec_num_bits(g.n_states as nat);
    let yb = spec_num_bits(g.n_symbols as nat);
    seq![Symbol(SYM_DOLLAR), Symbol(SYM_HASH)] + rules_code(g.ordered_rules@, sb, yb) + seq![Symbol(SYM_HASH)]
        + accepting_code(g.accepting@, sb, g.accepting@.len()) + seq![Symbol(SYM_HASH)] + bit_code(
        state.0 as nat,
        sb,
    ) + seq![Symbol(SYM_HASH)] + bit_code(g.blank.0 as nat, yb) + seq![Symbol(SYM_HASH)] + cells_code(
        input,
        g.blank,
        head,
        yb,
        tape_cells(input),
    )
}

/// Appends the code of `v` in `width` bits.
fn push_code(out: &mut Vec<Symbol>, v: usize, width: usize)
    ensures
        final(out)@ == old(out)@ + bit_code(v as nat, width as nat),
{
    let bits = low_bits(v, width);
    let ghost start = out@;
    let mut i: usize = 0;
    while i < bits.len()
        invariant
            i <= bits@.len(),
            bits@ == binary(v as nat, width as nat),
            out@ == start + bit_code(v as nat, width as nat).take(i as int),
        decreases bits.len() - i,
    {
        out.push(if bits[i] { Symbol(SYM_ONE) } else { Symbol(SYM_ZERO) });
        assert(bit_code(v as nat, width as nat).take(i + 1) =~= bit_code(v as nat, width as nat).take(i as int).push(
            bit_code(v as nat, width as nat)[i as int],
        ));
        i = i + 1;
    }
    assert(bit_code(v as nat, width as nat).take(i as int) =~= bit_code(v as nat, width as nat));
}

/// Appends the code of a rule.
fn push_rule(out: &mut Vec<Symbol>, r: (State, Symbol, State, Symbol, Dir), sb: usize, yb: usize)
    ensures
        final(out)@ == old(out)@ + rule_code(r, sb as nat, yb as nat),
{
    let ghost start = out@;
    out.push(Symbol(SYM_DOT));
    push_code(out, r.0.0 as usize, sb);
    out.push(Symbol(SYM_PIPE));
    push_code(out, r.1.0 as usize, yb);
    out.push(Symbol(SYM_PIPE));
    push_code(out, r.2.0 as usize, sb);
    out.push(Symbol(SYM_PIPE));
    push_code(out, r.3.0 as usize, yb);
    out.push(Symbol(SYM_PIPE));
    out.push(match r.4 {
        Dir::Left => Symbol(SYM_L),
        Dir::Right => Symbol(SYM_D),
    });
    assert(out@ =~= start + rule_code(r, sb as nat, yb as nat));
}

/// Lays a machine out on a universal machine's tape: its rules, accepting
/// states, state (`initial_state`, or the machine's initial state), blank,
/// and the input with the head at `head_pos`.
pub fn encode_tape(
    guest: &TuringMachineSpec,
    input: &[Symbol],
    head_pos: usize,
    initial_state: Option<State>,
) -> (r: Vec<Symbol>)
    ensures
        r@ == encode_spec(
            guest,
            input@,
            head_pos as nat,
            match initial_state {
                Some(s) => s,
                None => guest.initial,
            },
        ),
{
    let sb = num_bits(guest.n_states);
    let yb = num_bits(guest.n_symbols);
    let init = match initial_state {
        Some(s) => s,
        None => guest.initial,
    };
    let mut tape: Vec<Symbol> = Vec::new();
    tape.push(Symbol(SYM_DOLLAR));
    tape.push(Symbol(SYM_HASH));
    let ghost start = tape@;
    let rules = &guest.ordered_rules;
    let mut k: usize = 0;
    while k < rules.len()
        invariant
            sb as nat == spec_num_bits(guest.n_states as nat),
            yb as nat == spec_num_bits(guest.n_symbols as nat),
            k <= rules@.len(),
            tape@ == start + rules_code(rules@.take(k as int), sb as nat, yb as nat),
        decreases rules.len() - k,
    {
        let r = rules[k];
        let ghost before = tape@;
        if k > 0 {
            tape.push(Symbol(SYM_SEMI));
        }
        let ghost mid = tape@;
        push_rule(&mut tape, r, sb, yb);
        proof {
            let t1 = rules@.take(k + 1);
            assert(t1.drop_last() =~= rules@.take(k as int));
            assert(t1.last() == r);
            if k == 0 {
                assert(t1.len() == 1);
                assert(mid == before);
                assert(tape@ =~= before + rule_code(r, sb as nat, yb as nat));
            } else {
                assert(mid == before.push(Symbol(SYM_SEMI)));
                assert(tape@ =~= before + seq![Symbol(SYM_SEMI)] + rule_code(r, sb as nat, yb as nat));
            }
        }
        k = k + 1;
    }
    assert(rules@.take(k as int) =~= rules@);
    tape.push(Symbol(SYM_HASH));
    let ghost start2 = tape@;
    let mut i: usize = 0;
    let mut first = true;
    while i < guest.accepting.len()
        invariant
            sb as nat == spec_num_bits(guest.n_states as nat),
            i <= guest.accepting@.len(),
            tape@ == start2 + accepting_code(guest.accepting@, sb as nat, i as nat),
            first == (accepting_code(guest.accepting@, sb as nat, i as nat).len() == 0),
        decreases guest.accepting.len() - i,
    {
        if guest.accepting[i] {
            if !first {
                tape.push(Symbol(SYM_SEMI));
            }
            first = false;
            let ghost before = tape@;
            push_code(&mut tape, i, sb);
            proof {
                lemma_binary_len(i as nat, sb as nat);
                assert(tape@ =~= start2 + accepting_code(guest.accepting@, sb as nat, (i + 1) as nat));
            }
        }
        i = i + 1;
    }
    tape.push(Symbol(SYM_HASH));
    push_code(&mut tape, init.0 as usize, sb);
    tape.push(Symbol(SYM_HASH));
    push_code(&mut tape, guest.blank.0 as usize, yb);
    tape.push(Symbol(SYM_HASH));
    let ghost start3 = tape@;
    let n = if input.len() == 0 { 1 } else { input.len() };
    let mut c: usize = 0;
    while c < n
        invariant
            yb as nat == spec_num_bits(guest.n_symbols as nat),
            n == tape_cells(input@),
            c <= n,
            tape@ == start3 + cells_code(input@, guest.blank, head_pos as nat, yb as nat, c as nat),
        decreases n - c,
    {
        let ghost before = tape@;
        if c > 0 {
            tape.push(Symbol(SYM_COMMA));
        }
        if c == head_pos {
            tape.push(Symbol(SYM_CARET));
        }
        let v = if c < input.len() { input[c].0 } else { guest.blank.0 };
        push_code(&mut tape, v as usize, yb);
        assert(tape@ =~= before + cell_code(input@, guest.blank, head_pos as nat, yb as nat, c as nat));
        c = c + 1;
    }
    proof {
        let sbn = sb as nat;
        let ybn = yb as nat;
        assert(tape@ =~= encode_spec(guest, input@, head_pos as nat, init));
    }
    tape
}

/// A byte of a universal machine's tape as a tape symbol; bytes past the
/// last symbol read as `*`, which no code or section mark uses.
pub open spec fn as_tape_symbol(b: Symbol) -> TapeSymbol {
    if b.0 == SYM_BLANK {
        TapeSymbol::Blank
    } else if b.0 == SYM_ZERO {
        TapeSymbol::Zero
    } else if b.0 == SYM_ONE {
        TapeSymbol::One
    } else if b.0 == SYM_X {
        TapeSymbol::X
    } else if b.0 == SYM_Y {
        TapeSymbol::Y
    } else if b.0 == SYM_HASH {
        TapeSymbol::Hash
    } else if b.0 == SYM_PIPE {
        TapeSymbol::Pipe
    } else if b.0 == SYM_SEMI {
        TapeSymbol::Semi
    } else if b.0 == SYM_COMMA {
        TapeSymbol::Comma
    } else if b.0 == SYM_CARET {
        TapeSymbol::Caret
    } else if b.0 == SYM_L {
        TapeSymbol::L
    } else if b.0 == SYM_D {
        TapeSymbol::R
    } else if b.0 == SYM_DOT {
        TapeSymbol::Dot
    } else if b.0 == SYM_GT {
        TapeSymbol::Gt
    } else if b.0 == SYM_DOLLAR {
        TapeSymbol::Dollar
    } else {
        TapeSymbol::Star
    }
}

/// A tape of bytes as tape symbols.
pub open spec fn tape_view(t: Seq<Symbol>) -> Seq<TapeSymbol> {
    t.map_values(|b: Symbol| as_tape_symbol(b))
}

fn to_tape_symbol(b: Symbol) -> (r: TapeSymbol)
    ensures
        r == as_tape_symbol(b),
{
    if b.0 == SYM_BLANK {
        TapeSymbol::Blank
    } else if b.0 == SYM_ZERO {
        TapeSymbol::Zero
    } else if b.0 == SYM_ONE {
        TapeSymbol::One
    } else if b.0 == SYM_X {
        TapeSymbol::X
    } else if b.0 == SYM_Y {
        TapeSymbol::Y
    } else if b.0 == SYM_HASH {
        TapeSymbol::Hash
    } else if b.0 == SYM_PIPE {
        TapeSymbol::Pipe
    } else if b.0 == SYM_SEMI {
        TapeSymbol::Semi
    } else if b.0 == SYM_COMMA {
        TapeSymbol::Comma
    } else if b.0 == SYM_CARET {
        TapeSymbol::Caret
    } else if b.0 == SYM_L {
        TapeSymbol::L
    } else if b.0 == SYM_D {
        TapeSymbol::R
    } else if b.0 == SYM_DOT {
        TapeSymbol::Dot
    } else if b.0 == SYM_GT {
        TapeSymbol::Gt
    } else if b.0 == SYM_DOLLAR {
        TapeSymbol::Dollar
    } else {
        TapeSymbol::Star
    }
}

/// A machine's state, head and tape as read back from a universal
/// machine's tape: the state's position, the head's cell and the
/// positions of the cells' symbols.
pub struct DecodedGuestState {
    pub state: usize,
    pub head_pos: usize,
    pub tape: Vec<usize>,
}

/// A tape that decoding can read for this machine: it has at least five
/// `#`, the state section holds a code, and every code in the tape section
/// is made of bits.
pub open spec fn byte_decodable(g: &TuringMachineSpec, tape: Seq<Symbol>) -> bool {
    let t = tape_view(tape);
    let h = hash_positions(t);
    &&& g.n_states <= 256
    &&& g.n_symbols <= 256
    &&& h.len() >= 5
    &&& all_bits(t, h[2] + 1, spec_num_bits(g.n_states as nat) as int)
    &&& parse_ok(t, spec_num_bits(g.n_symbols as nat), h[4] + 1, 256)
}

/// Reads a machine's state, head and tape back from a universal machine's
/// tape: the state from the section after the third `#`, the cells from
/// the section after the fifth.
pub fn decode_tape(utm_tape: &[Symbol], guest: &TuringMachineSpec) -> (r: DecodedGuestState)
    requires
        byte_decodable(guest, utm_tape@),
    ensures
        ({
            let t = tape_view(utm_tape@);
            let h = hash_positions(t);
            &&& r.state as nat == symbols_value(t, h[2] + 1, spec_num_bits(guest.n_states as nat))
            &&& (r.tape@.map_values(|c: usize| c as nat), r.head_pos as nat) == parse_cells(
                t,
                spec_num_bits(guest.n_symbols as nat),
                h[4] + 1,
                0,
                Seq::empty(),
                0,
            )
        }),
{
    let mut t: Vec<TapeSymbol> = Vec::new();
    let mut i: usize = 0;
    while i < utm_tape.len()
        invariant
            i <= utm_tape@.len(),
            t@ == tape_view(utm_tape@).take(i as int),
        decreases utm_tape.len() - i,
    {
        t.push(to_tape_symbol(utm_tape[i]));
        assert(t@ =~= tape_view(utm_tape@).take(i + 1));
        i = i + 1;
    }
    assert(tape_view(utm_tape@).take(i as int) =~= tape_view(utm_tape@));
    let ghost tv = t@;
    let hashes = hash_positions_of(t.as_slice());
    let ghost h = hash_positions(tv);
    assert(hashes@.len() == h.len());
    assert(hashes@[2] as int == h[2]);
    assert(hashes@[4] as int == h[4]);
    let n = t.len();
    assert(hashes@[2] < n);
    assert(hashes@[4] < n);
    let sb = num_bits(guest.n_states);
    let yb = num_bits(guest.n_symbols);
    proof {
        lemma_num_bits_at_most_8(guest.n_states as nat);
        crate::binary::lemma_symbols_value_bound(tv, h[2] + 1, sb as nat);
        crate::binary::lemma_two_pow_monotone(sb as nat, 8);
        assert(crate::binary::two_pow(8) == 256) by {
            reveal_with_fuel(crate::binary::two_pow, 9);
        }
    }
    let state = crate::binary::from_binary_at(t.as_slice(), hashes[2] + 1, sb);
    let (cells, head) = read_cells(t.as_slice(), yb, hashes[4] + 1, 256);
    DecodedGuestState { state, head_pos: head, tape: cells }
}

proof fn lemma_num_bits_at_most_8(count: nat)
    requires
        count <= 256,
    ensures
        spec_num_bits(count) <= 8,
{
    crate::binary::lemma_num_bits(count);
    let nb = spec_num_bits(count);
    if count > 2 && nb > 8 {
        crate::binary::lemma_two_pow_monotone(8, (nb - 1) as nat);
        assert(crate::binary::two_pow(8) == 256) by {
            reveal_with_fuel(crate::binary::two_pow, 9);
        }
    }
}

/// A tape that reaches without end both ways: cells `0, 1, ...` are
/// `right`, cells `-1, -2, ...` are `left`, and every other cell is blank.
pub struct InfiniteTape {
    pub left: Vec<Symbol>,
    pub right: Vec<Symbol>,
    pub blank: Symbol,
}

impl InfiniteTape {
    /// The symbol in cell `pos`.
    pub open spec fn at(&self, pos: int) -> Symbol {
        if pos >= 0 {
            if pos < self.right@.len() {
                self.right@[pos]
            } else {
                self.blank
            }
        } else {
            let idx = -pos - 1;
            if idx < self.left@.len() {
                self.left@[idx]
            } else {
                self.blank
            }
        }
    }

    /// A tape holding `initial` from cell 0 on, blank elsewhere.
    pub fn new(initial: &[Symbol], blank: Symbol) -> (r: Self)
        ensures
            r.blank == blank,
            forall|p: int| #[trigger] r.at(p) == if 0 <= p < initial@.len() {
                initial@[p]
            } else {
                blank
            },
    {
        let mut right: Vec<Symbol> = Vec::new();
        let mut i: usize = 0;
        while i < initial.len()
            invariant
                i <= initial@.len(),
                right@ == initial@.take(i as int),
            decreases initial.len() - i,
        {
            right.push(initial[i]);
            assert(right@ =~= initial@.take(i + 1));
            i = i + 1;
        }
        assert(initial@.take(i as int) =~= initial@);
        InfiniteTape { left: Vec::new(), right, blank }
    }

    /// The symbol in cell `pos`.
    pub fn get(&self, pos: i64) -> (r: Symbol)
        requires
            pos > i64::MIN,
        ensures
            r == self.at(pos as int),
    {
        if pos >= 0 {
            let n = self.right.len();
            if (pos as u64) < (n as u64) {
                self.right[pos as usize]
            } else {
                self.blank
            }
        } else {
            let idx = -pos - 1;
            let n = self.left.len();
            if (idx as u64) < (n as u64) {
                self.left[idx as usize]
            } else {
                self.blank
            }
        }
    }

    /// Writes `val` into cell `pos`, growing the tape with blanks as far as
    /// that cell.
    pub fn set(&mut self, pos: i64, val: Symbol)
        requires
            pos > i64::MIN,
            pos <= usize::MAX as int,
            -pos - 1 <= usize::MAX as int,
        ensures
            final(self).blank == old(self).blank,
            forall|p: int| #[trigger] final(self).at(p) == if p == pos {
                val
            } else {
                old(self).at(p)
            },
    {
        let ghost before = *self;
        if pos >= 0 {
            let idx = pos as usize;
            while self.right.len() <= idx
                invariant
                    self.blank == before.blank,
                    self.left@ == before.left@,
                    self.right@.len() >= before.right@.len(),
                    self.right@.take(before.right@.len() as int) == before.right@,
                    forall|k: int| before.right@.len() <= k < self.right@.len() ==> #[trigger] self.right@[k] == self.blank,
                decreases idx + 1 - self.right@.len(),
            {
                let b = self.blank;
                let ghost r0 = self.right@;
                self.right.push(b);
                assert(self.right@.take(before.right@.len() as int) =~= r0.take(before.right@.len() as int));
            }
            let ghost grown = *self;
            self.right.set(idx, val);
            proof {
                assert forall|p: int| #[trigger] self.at(p) == if p == pos { val } else { before.at(p) } by {
                    if p >= 0 && p != pos && p < grown.right@.len() {
                        if p < before.right@.len() {
                            assert(grown.right@[p] == grown.right@.take(before.right@.len() as int)[p]);
                        }
                    }
                }
            }
        } else {
            let idx = (-pos - 1) as usize;
            while self.left.len() <= idx
                invariant
                    self.blank == before.blank,
                    self.right@ == before.right@,
                    self.left@.len() >= before.left@.len(),
                    self.left@.take(before.left@.len() as int) == before.left@,
                    forall|k: int| before.left@.len() <= k < self.left@.len() ==> #[trigger] self.left@[k] == self.blank,
                decreases idx + 1 - self.left@.len(),
            {
                let b = self.blank;
                let ghost l0 = self.left@;
                self.left.push(b);
                assert(self.left@.take(before.left@.len() as int) =~= l0.take(before.left@.len() as int));
            }
            let ghost grown = *self;
            self.left.set(idx, val);
            proof {
                assert forall|p: int| #[trigger] self.at(p) == if p == pos { val } else { before.at(p) } by {
                    if p < 0 && p != pos && -p - 1 < grown.left@.len() {
                        if -p - 1 < before.left@.len() {
                            assert(grown.left@[-p - 1] == grown.left@.take(before.left@.len() as int)[-p - 1]);
                        }
                    }
                }
            }
        }
    }

    /// The cells from `min_pos` to `max_pos`, both included.
    pub fn extract(&self, min_pos: i64, max_pos: i64) -> (r: Vec<Symbol>)
        requires
            min_pos > i64::MIN,
        ensures
            r@.len() == if min_pos <= max_pos { max_pos - min_pos + 1 } else { 0 },
            forall|k: int| 0 <= k < r@.len() ==> #[trigger] r@[k] == self.at(min_pos + k),
    {
        let mut r: Vec<Symbol> = Vec::new();
        if min_pos > max_pos {
            return r;
        }
        let mut p: i64 = min_pos;
        loop
            invariant
                min_pos <= p <= max_pos,
                min_pos > i64::MIN,
                r@.len() == p - min_pos,
                forall|k: int| 0 <= k < r@.len() ==> #[trigger] r@[k] == self.at(min_pos + k),
            decreases max_pos - p,
        {
            r.push(self.get(p));
            if p == max_pos {
                return r;
            }
            p = p + 1;
        }
    }
}

/// How a run ended, with the number of steps taken.
#[derive(Debug, Clone, Copy, PartialEq, Eq, Structural)]
pub enum RunResult {
    Accepted(i64),
    Rejected(i64),
    StepLimit(i64),
}

/// Whether a state accepts.
pub open spec fn accepts(m: &TuringMachineSpec, s: State) -> bool {
    (s.0 as int) < m.accepting@.len() && m.accepting@[s.0 as int]
}

/// A run of at most `fuel` more steps from a tape, a head position and a
/// state, `done` steps taken before: how it ends (out of steps, it reports
/// `limit`), and the tape, head and state at its end.
pub open spec fn run_bytes(
    m: &TuringMachineSpec,
    tape: spec_fn(int) -> Symbol,
    head: int,
    state: State,
    fuel: nat,
    done: int,
    limit: i64,
) -> (RunResult, spec_fn(int) -> Symbol, int, State)
    decreases fuel,
{
    if fuel == 0 {
        (RunResult::StepLimit(limit), tape, head, state)
    } else {
        match m.transitions@[table_index(state, tape(head))] {
            None => (
                if accepts(m, state) {
                    RunResult::Accepted(done as i64)
                } else {
                    RunResult::Rejected(done as i64)
                },
                tape,
                head,
                state,
            ),
            Some((ns, nsym, dir)) => run_bytes(
                m,
                write_cell(tape, head, nsym),
                match dir {
                    Dir::Left => head - 1,
                    Dir::Right => head + 1,
                },
                ns,
                (fuel - 1) as nat,
                done + 1,
                limit,
            ),
        }
    }
}

/// The cells of a tape after writing `v` into cell `at`.
pub open spec fn write_cell(t: spec_fn(int) -> Symbol, at: int, v: Symbol) -> spec_fn(int) -> Symbol {
    |p: int| if p == at { v } else { t(p) }
}

/// The cells of a tape, as a function.
pub open spec fn cells_of(t: InfiniteTape) -> spec_fn(int) -> Symbol {
    |p: int| t.at(p)
}

/// The steps that a run may take: `max_steps`, or none for a negative one.
pub open spec fn step_budget(max_steps: i64) -> nat {
    if max_steps > 0 {
        max_steps as nat
    } else {
        0
    }
}

/// Runs a machine on a tape from a head position and a state, for at most
/// `max_steps` steps; the tape, head and state are left where the run
/// ends.
pub fn run_tm(
    spec: &TuringMachineSpec,
    tape: &mut InfiniteTape,
    head: &mut i64,
    state: &mut State,
    max_steps: i64,
) -> (r: RunResult)
    requires
        spec.wf(),
        i64::MIN + step_budget(max_steps) < *old(head),
        *old(head) + step_budget(max_steps) < i64::MAX,
        *old(head) + step_budget(max_steps) <= usize::MAX,
        -(*old(head) - step_budget(max_steps)) - 1 <= usize::MAX,
    ensures
        ({
            let run = run_bytes(
                spec,
                cells_of(*old(tape)),
                *old(head) as int,
                *old(state),
                step_budget(max_steps),
                0,
                max_steps,
            );
            &&& r == run.0
            &&& *final(head) == run.2
            &&& *final(state) == run.3
            &&& forall|p: int| #[trigger] final(tape).at(p) == (run.1)(p)
            &&& final(tape).blank == old(tape).blank
        }),
{
    let ghost budget = step_budget(max_steps);
    let ghost v0 = cells_of(*old(tape));
    let ghost mut cur = v0;
    let mut step: i64 = 0;
    while step < max_steps
        invariant
            spec.wf(),
            0 <= step <= budget,
            budget == step_budget(max_steps),
            v0 == cells_of(*old(tape)),
            max_steps > 0 ==> step <= max_steps,
            old(head) - step <= *head <= old(head) + step,
            i64::MIN + budget < *old(head),
            *old(head) + budget < i64::MAX,
            *old(head) + budget <= usize::MAX,
            -(*old(head) - budget) - 1 <= usize::MAX,
            tape.blank == old(tape).blank,
            forall|p: int| #[trigger] tape.at(p) == cur(p),
            run_bytes(spec, v0, *old(head) as int, *old(state), budget, 0, max_steps) == run_bytes(
                spec,
                cur,
                *head as int,
                *state,
                (budget - step) as nat,
                step as int,
                max_steps,
            ),
        decreases budget - step,
    {
        let sym = tape.get(*head);
        match spec.get_transition(*state, sym) {
            None => {
                assert(sym == cur(*head as int));
                proof {
                    assert(budget - step > 0);
                    assert(run_bytes(spec, cur, *head as int, *state, (budget - step) as nat, step as int, max_steps) == (
                        if accepts(spec, *state) {
                            RunResult::Accepted(step)
                        } else {
                            RunResult::Rejected(step)
                        },
                        cur,
                        *head as int,
                        *state,
                    ));
                    let run = run_bytes(spec, cells_of(*old(tape)), *old(head) as int, *old(state), budget, 0, max_steps);
                    assert(run.1 == cur);
                    assert(run.2 == *head as int);
                    assert(run.3 == *state);
                    assert forall|p: int| #[trigger] tape.at(p) == (run.1)(p) by {}
                }
                if spec.is_accepting(*state) {
                    return RunResult::Accepted(step);
                } else {
                    return RunResult::Rejected(step);
                }
            },
            Some((ns, nsym, dir)) => {
                assert(sym == cur(*head as int));
                let ghost h = *head as int;
                let ghost old_state_g = *state;
                let ghost next = write_cell(cur, h, nsym);
                tape.set(*head, nsym);
                *state = ns;
                match dir {
                    Dir::Left => *head = *head - 1,
                    Dir::Right => *head = *head + 1,
                }
                proof {
                    assert(budget - step > 0);
                    assert(spec.transitions@[table_index(old_state_g, cur(h))] == Some((ns, nsym, dir)));
                    assert(*head as int == match dir {
                        Dir::Left => h - 1,
                        Dir::Right => h + 1,
                    });
                    assert(run_bytes(spec, cur, h, old_state_g, (budget - step) as nat, step as int, max_steps) == run_bytes(
                        spec,
                        next,
                        *head as int,
                        ns,
                        (budget - step - 1) as nat,
                        step + 1,
                        max_steps,
                    ));
                    cur = next;
                }
            },
        }
        step = step + 1;
    }
    assert(budget - step == 0);
    assert(step == max_steps || max_steps <= 0);
    RunResult::StepLimit(max_steps)
}

/// Some symbol makes state `s` keep the symbol, stay in `s` and move in
/// direction `d`.
pub open spec fn scans(m: &TuringMachineSpec, s: int, d: Dir) -> bool {
    exists|y: int|
        0 <= y < m.n_symbols && #[trigger] m.transitions@[s * 256 + y] == Some(
            (State(s as u8), Symbol(y as u8), d),
        )
}

/// For each state, whether some symbol makes it keep the symbol, stay and
/// move in direction `d`.
fn scan_states(spec: &TuringMachineSpec, d: Dir) -> (r: Vec<bool>)
    requires
        spec.wf(),
        spec.n_states <= 256,
        spec.n_symbols <= 256,
    ensures
        r@.len() == spec.n_states,
        forall|s: int| 0 <= s < spec.n_states ==> #[trigger] r@[s] == scans(spec, s, d),
{
    let mut r: Vec<bool> = Vec::new();
    let mut s: usize = 0;
    while s < spec.n_states
        invariant
            spec.wf(),
            spec.n_states <= 256,
            spec.n_symbols <= 256,
            s <= spec.n_states,
            r@.len() == s,
            forall|q: int| 0 <= q < s ==> #[trigger] r@[q] == scans(spec, q, d),
        decreases spec.n_states - s,
    {
        let mut found = false;
        let mut y: usize = 0;
        while y < spec.n_symbols
            invariant
                spec.wf(),
                s < spec.n_states <= 256,
                spec.n_symbols <= 256,
                y <= spec.n_symbols,
                found == exists|z: int|
                    0 <= z < y && #[trigger] spec.transitions@[s * 256 + z] == Some(
                        (State(s as u8), Symbol(z as u8), d),
                    ),
            decreases spec.n_symbols - y,
        {
            let t = spec.get_transition(State(s as u8), Symbol(y as u8));
            assert(table_index(State(s as u8), Symbol(y as u8)) == s * 256 + y);
            let hit = match t {
                Some((ns, nsym, dir)) => ns.0 as usize == s && nsym.0 as usize == y && dir == d,
                None => false,
            };
            if hit {
                found = true;
            }
            y = y + 1;
        }
        r.push(found);
        s = s + 1;
    }
    r
}

/// For each state, whether some symbol makes it keep the symbol, stay and
/// move right.
pub fn scan_right_states(spec: &TuringMachineSpec) -> (r: Vec<bool>)
    requires
        spec.wf(),
        spec.n_states <= 256,
        spec.n_symbols <= 256,
    ensures
        r@.len() == spec.n_states,
        forall|s: int| 0 <= s < spec.n_states ==> #[trigger] r@[s] == scans(spec, s, Dir::Right),
{
    scan_states(spec, Dir::Right)
}

/// For each state, whether some symbol makes it keep the symbol, stay and
/// move left.
pub fn scan_left_states(spec: &TuringMachineSpec) -> (r: Vec<bool>)
    requires
        spec.wf(),
        spec.n_states <= 256,
        spec.n_symbols <= 256,
    ensures
        r@.len() == spec.n_states,
        forall|s: int| 0 <= s < spec.n_states ==> #[trigger] r@[s] == scans(spec, s, Dir::Left),
{
    scan_states(spec, Dir::Left)
}

/// The character that a universal machine's tape shows for a byte, `?`
/// past the last symbol.
pub open spec fn symbol_char(b: Symbol) -> char {
    if b.0 == SYM_BLANK {
        '_'
    } else if b.0 == SYM_ZERO {
        '0'
    } else if b.0 == SYM_ONE {
        '1'
    } else if b.0 == SYM_X {
        'X'
    } else if b.0 == SYM_Y {
        'Y'
    } else if b.0 == SYM_HASH {
        '#'
    } else if b.0 == SYM_PIPE {
        '|'
    } else if b.0 == SYM_SEMI {
        ';'
    } else if b.0 == SYM_COMMA {
        ','
    } else if b.0 == SYM_CARET {
        '^'
    } else if b.0 == SYM_L {
        'l'
    } else if b.0 == SYM_D {
        'd'
    } else if b.0 == SYM_DOT {
        '.'
    } else if b.0 == SYM_STAR {
        '*'
    } else if b.0 == SYM_GT {
        '>'
    } else if b.0 == SYM_DOLLAR {
        '$'
    } else {
        '?'
    }
}

fn char_of(b: Symbol) -> (r: char)
    ensures
        r == symbol_char(b),
{
    if b.0 == SYM_BLANK {
        '_'
    } else if b.0 == SYM_ZERO {
        '0'
    } else if b.0 == SYM_ONE {
        '1'
    } else if b.0 == SYM_X {
        'X'
    } else if b.0 == SYM_Y {
        'Y'
    } else if b.0 == SYM_HASH {
        '#'
    } else if b.0 == SYM_PIPE {
        '|'
    } else if b.0 == SYM_SEMI {
        ';'
    } else if b.0 == SYM_COMMA {
        ','
    } else if b.0 == SYM_CARET {
        '^'
    } else if b.0 == SYM_L {
        'l'
    } else if b.0 == SYM_D {
        'd'
    } else if b.0 == SYM_DOT {
        '.'
    } else if b.0 == SYM_STAR {
        '*'
    } else if b.0 == SYM_GT {
        '>'
    } else if b.0 == SYM_DOLLAR {
        '$'
    } else {
        '?'
    }
}

/// A universal machine's tape as text, one character per cell.
pub fn format_tape(tape: &[Symbol]) -> (r: String)
    ensures
        r@ == tape@.map_values(|b: Symbol| symbol_char(b)),
{
    let mut r = String::new();
    let mut i: usize = 0;
    while i < tape.len()
        invariant
            i <= tape@.len(),
            r@ == tape@.take(i as int).map_values(|b: Symbol| symbol_char(b)),
        decreases tape.len() - i,
    {
        crate::json_export::push_char(&mut r, char_of(tape[i]));
        assert(r@ =~= tape@.take(i + 1).map_values(|b: Symbol| symbol_char(b)));
        i = i + 1;
    }
    assert(tape@.take(i as int) =~= tape@);
    r
}

/// The symbol at position `idx` of the infinite tape with this header:
/// the header, then cells of `cell_size` symbols, each a separator (`^`
/// for the first, `,` for the others) and the code of the symbol at the
/// position that is the cell's number.
pub open spec fn background(header: Seq<Symbol>, n_sym_bits: nat, cell_size: nat, idx: nat) -> Symbol
    decreases idx,
{
    if idx < header.len() {
        header[idx as int]
    } else if cell_size == 0 {
        Symbol(SYM_CARET)
    } else {
        let offset = (idx - header.len()) as nat;
        let cell = offset / cell_size;
        let within = offset % cell_size;
        if within == 0 {
            if cell == 0 {
                Symbol(SYM_CARET)
            } else {
                Symbol(SYM_COMMA)
            }
        } else {
            proof {
                assert(cell < idx) by (nonlinear_arith)
                    requires
                        cell == offset / cell_size,
                        within == offset % cell_size,
                        offset <= idx,
                        cell_size > 0,
                        within != 0,
                ;
            }
            bit_code(background(header, n_sym_bits, cell_size, cell).0 as nat, n_sym_bits)[within - 1]
        }
    }
}

/// The symbol at position `idx` of the infinite tape with this header,
/// computed from the positions before it.
pub fn infinite_utm_tape_background(header: &[Symbol], n_sym_bits: usize, cell_size: usize, idx: usize) -> (r: Symbol)
    requires
        1 <= cell_size <= n_sym_bits + 1,
    ensures
        r == background(header@, n_sym_bits as nat, cell_size as nat, idx as nat),
    decreases idx,
{
    if idx < header.len() {
        return header[idx];
    }
    let offset = idx - header.len();
    let cell_idx = offset / cell_size;
    let within = offset % cell_size;
    if within == 0 {
        return if cell_idx == 0 { Symbol(SYM_CARET) } else { Symbol(SYM_COMMA) };
    }
    assert(cell_idx < idx) by (nonlinear_arith)
        requires
            cell_idx == offset / cell_size,
            offset <= idx,
            cell_size >= 1,
            within == offset % cell_size,
            within != 0,
    ;
    let sym = infinite_utm_tape_background(header, n_sym_bits, cell_size, cell_idx);
    let bits = low_bits(sym.0 as usize, n_sym_bits);
    proof {
        lemma_binary_len(sym.0 as nat, n_sym_bits as nat);
    }
    if bits[within - 1] {
        Symbol(SYM_ONE)
    } else {
        Symbol(SYM_ZERO)
    }
}

} // verus!
