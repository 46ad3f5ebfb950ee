//! Compilation of a machine description into a dense table over small
//! integer states and symbols, and the way back.
use vstd::prelude::*;

use crate::tm::{
    closed, halt_reason, pad_config, pad_tape, run_config, lemma_table_rules, lemma_table_rules_sorted, some_entries, step_config, table_consistent, table_lookup, Dir,
    Label, Rule, RunningTuringMachine, TmConfig, TuringMachineSpec, same_label,
};

verus! {

/// A compiled state: the position of a state in the guest's state list.
#[derive(Debug, Clone, Copy, PartialEq, Eq, Hash, Structural)]
pub struct CState(pub u8);

/// A compiled symbol: the position of a symbol in the guest's symbol list.
#[derive(Debug, Clone, Copy, PartialEq, Eq, Hash, Structural)]
pub struct CSymbol(pub u8);

impl Label for CState {
    open spec fn spec_index(self) -> nat {
        self.0 as nat
    }

    fn index(&self) -> (r: usize) {
        self.0 as usize
    }

    proof fn lemma_index_injective(a: Self, b: Self) {
    }
}

impl Label for CSymbol {
    open spec fn spec_index(self) -> nat {
        self.0 as nat
    }

    fn index(&self) -> (r: usize) {
        self.0 as usize
    }

    proof fn lemma_index_injective(a: Self, b: Self) {
    }
}

/// The number of entries of a compiled table: one per pair of a state and
/// a symbol.
pub const TABLE_SIZE: usize = 65536;

/// The position of a value in a sequence (meaningful when it occurs once).
pub open spec fn position<T>(s: Seq<T>, x: T) -> int {
    choose|i: int| 0 <= i < s.len() && s[i] == x
}

/// The position of a label in a list without repetitions.
pub fn find_position<L: Label>(s: &Vec<L>, x: &L) -> (r: usize)
    requires
        s@.contains(*x),
        s@.no_duplicates(),
    ensures
        r < s@.len(),
        s@[r as int] == *x,
        r as int == position(s@, *x),
{
    let mut i: usize = 0;
    while i < s.len()
        invariant
            i <= s@.len(),
            s@.contains(*x),
            s@.no_duplicates(),
            forall|j: int| 0 <= j < i ==> s@[j] != *x,
        decreases s.len() - i,
    {
        if same_label(&s[i], x) {
            proof {
                let p = position(s@, *x);
                assert(s@[p] == *x);
                assert(s@[i as int] == *x);
                if p != i {
                    assert(s@[p] != s@[i as int]);
                }
            }
            return i;
        }
        i = i + 1;
    }
    assert(false);
    0
}

/// A guest transition, with its state and symbol replaced by their positions.
pub open spec fn compile_transition<S, Y>(
    states: Seq<S>,
    symbols: Seq<Y>,
    t: Option<(S, Y, Dir)>,
) -> Option<(CState, CSymbol, Dir)> {
    match t {
        Some((ns, nsym, d)) => Some(
            (CState(position(states, ns) as u8), CSymbol(position(symbols, nsym) as u8), d),
        ),
        None => None,
    }
}

/// The place of a pair in a compiled table.
pub open spec fn flat(s: int, y: int) -> int {
    s * 256 + y
}

/// A compiled table with each entry completed by its state and symbol.
pub open spec fn rule_table(t: Seq<Option<(CState, CSymbol, Dir)>>) -> Seq<Option<Rule<CState, CSymbol>>> {
    Seq::new(
        t.len(),
        |i: int|
            match t[i] {
                Some(x) => Some((CState((i / 256) as u8), CSymbol((i % 256) as u8), x.0, x.1, x.2)),
                None => None,
            },
    )
}

/// A machine compiled from a guest description.
#[derive(Debug, Clone, PartialEq, Eq)]
pub struct CompiledTuringMachineSpec<'a, Guest: TuringMachineSpec> {
    pub n_states: u16,
    pub n_symbols: u16,
    pub initial: CState,
    pub accept: Vec<CState>,
    pub blank: CSymbol,
    pub transitions: Vec<Option<(CState, CSymbol, Dir)>>,
    pub guest: &'a Guest,
    pub original_states: Vec<Guest::State>,
    pub original_symbols: Vec<Guest::Symbol>,
}

/// Why a guest cannot be compiled.
#[derive(Debug, Clone, Copy, PartialEq, Eq, Structural)]
pub enum CompileError {
    TooManyStates,
    TooManySymbols,
}

pub proof fn lemma_flat_bounds(s: int, y: int)
    requires
        0 <= s < 256,
        0 <= y < 256,
    ensures
        0 <= flat(s, y) < 65536,
        flat(s, y) / 256 == s,
        flat(s, y) % 256 == y,
{
    assert(0 <= s * 256 + y < 65536) by (nonlinear_arith)
        requires
            0 <= s < 256,
            0 <= y < 256,
    ;
    assert((s * 256 + y) / 256 == s && (s * 256 + y) % 256 == y) by (nonlinear_arith)
        requires
            0 <= s < 256,
            0 <= y < 256,
    ;
}

pub proof fn lemma_unflat(i: int)
    requires
        0 <= i < 65536,
    ensures
        0 <= i / 256 < 256,
        0 <= i % 256 < 256,
        flat(i / 256, i % 256) == i,
{
    assert(0 <= i / 256 < 256 && 0 <= i % 256 < 256 && (i / 256) * 256 + i % 256 == i) by (nonlinear_arith)
        requires
            0 <= i < 65536,
    ;
}

pub proof fn lemma_rule_table_consistent(t: Seq<Option<(CState, CSymbol, Dir)>>)
    requires
        t.len() == 65536,
    ensures
        table_consistent(rule_table(t), 256, 256),
        forall|s: CState, y: CSymbol|
            #[trigger] table_lookup(rule_table(t), 256, 256, s, y) == t[flat(s.0 as int, y.0 as int)],
{
    let rt = rule_table(t);
    assert forall|i: int| 0 <= i < rt.len() && (#[trigger] rt[i]) is Some implies {
        let r = rt[i]->0;
        &&& r.0.spec_index() < 256
        &&& r.1.spec_index() < 256
        &&& r.0.spec_index() * 256 + r.1.spec_index() == i
    } by {
        lemma_unflat(i);
    }
    assert(rt.len() == 256 * 256);
    assert forall|s: CState, y: CSymbol|
        #[trigger] table_lookup(rule_table(t), 256, 256, s, y) == t[flat(s.0 as int, y.0 as int)] by {
        lemma_flat_bounds(s.0 as int, y.0 as int);
    }
}

impl<'a, Guest: TuringMachineSpec> TuringMachineSpec for CompiledTuringMachineSpec<'a, Guest> {
    type State = CState;
    type Symbol = CSymbol;

    open spec fn inv(&self) -> bool {
        &&& self.transitions@.len() == TABLE_SIZE
        &&& self.n_states <= 256
        &&& self.n_symbols <= 256
    }

    open spec fn spec_initial(&self) -> CState {
        self.initial
    }

    open spec fn spec_blank(&self) -> CSymbol {
        self.blank
    }

    open spec fn spec_accepting(&self, state: CState) -> bool {
        self.accept@.contains(state)
    }

    open spec fn spec_transition(&self, state: CState, symbol: CSymbol) -> Option<(CState, CSymbol, Dir)> {
        self.transitions@[flat(state.0 as int, symbol.0 as int)]
    }

    open spec fn spec_states(&self) -> Seq<CState> {
        Seq::new(self.n_states as nat, |i: int| CState(i as u8))
    }

    open spec fn spec_symbols(&self) -> Seq<CSymbol> {
        Seq::new(self.n_symbols as nat, |i: int| CSymbol(i as u8))
    }

    open spec fn spec_rules(&self) -> Seq<Rule<CState, CSymbol>> {
        some_entries(rule_table(self.transitions@))
    }

    fn initial(&self) -> (r: CState) {
        self.initial
    }

    fn blank(&self) -> (r: CSymbol) {
        self.blank
    }

    fn is_accepting(&self, state: CState) -> (r: bool) {
        let mut i: usize = 0;
        while i < self.accept.len()
            invariant
                i <= self.accept@.len(),
                forall|j: int| 0 <= j < i ==> self.accept@[j] != state,
            decreases self.accept.len() - i,
        {
            if self.accept[i] == state {
                return true;
            }
            i = i + 1;
        }
        false
    }

    fn get_transition(&self, state: CState, symbol: CSymbol) -> (r: Option<(CState, CSymbol, Dir)>) {
        proof {
            lemma_flat_bounds(state.0 as int, symbol.0 as int);
        }
        self.transitions[(state.0 as usize) * 256 + (symbol.0 as usize)]
    }

    fn iter_states(&self) -> (r: Vec<CState>) {
        let mut r: Vec<CState> = Vec::new();
        let mut i: u16 = 0;
        while i < self.n_states
            invariant
                i <= self.n_states,
                self.n_states <= 256,
                r@ == Seq::new(i as nat, |j: int| CState(j as u8)),
            decreases self.n_states - i,
        {
            r.push(CState(i as u8));
            i = i + 1;
        }
        r
    }

    fn iter_symbols(&self) -> (r: Vec<CSymbol>) {
        let mut r: Vec<CSymbol> = Vec::new();
        let mut i: u16 = 0;
        while i < self.n_symbols
            invariant
                i <= self.n_symbols,
                self.n_symbols <= 256,
                r@ == Seq::new(i as nat, |j: int| CSymbol(j as u8)),
            decreases self.n_symbols - i,
        {
            r.push(CSymbol(i as u8));
            i = i + 1;
        }
        r
    }

    fn iter_rules(&self) -> (r: Vec<Rule<CState, CSymbol>>) {
        let mut r: Vec<Rule<CState, CSymbol>> = Vec::new();
        let ghost rt = rule_table(self.transitions@);
        let mut i: usize = 0;
        while i < self.transitions.len()
            invariant
                i <= self.transitions@.len(),
                self.transitions@.len() == TABLE_SIZE,
                rt == rule_table(self.transitions@),
                r@ == some_entries(rt.take(i as int)),
            decreases self.transitions.len() - i,
        {
            assert(rt.take(i + 1).drop_last() =~= rt.take(i as int));
            match self.transitions[i] {
                Some(x) => {
                    r.push((CState((i / 256) as u8), CSymbol((i % 256) as u8), x.0, x.1, x.2));
                },
                None => {},
            }
            i = i + 1;
        }
        assert(rt.take(i as int) =~= rt);
        r
    }

    proof fn lemma_rules(&self) {
        let rt = rule_table(self.transitions@);
        lemma_rule_table_consistent(self.transitions@);
        lemma_table_rules(rt, 256, 256);
        lemma_table_rules_sorted(rt, 256, 256);
        assert forall|s: CState, y: CSymbol|
            (#[trigger] self.spec_transition(s, y)) is Some implies exists|i: int|
                0 <= i < self.spec_rules().len() && (#[trigger] self.spec_rules()[i]).0 == s
                    && self.spec_rules()[i].1 == y by {
            assert(table_lookup(rt, 256, 256, s, y) == self.transitions@[flat(s.0 as int, y.0 as int)]);
            let i = choose|i: int|
                0 <= i < some_entries(rt).len() && (#[trigger] some_entries(rt)[i]).0 == s
                    && some_entries(rt)[i].1 == y;
            assert(self.spec_rules()[i].0 == s);
        }
    }
}


impl<'a, Guest: TuringMachineSpec> CompiledTuringMachineSpec<'a, Guest> {
    /// This is a faithful compilation of `self.guest`: states and symbols
    /// become their positions in the guest's lists, and every transition,
    /// the initial state, the blank and acceptance carry over.
    pub open spec fn compiles(&self) -> bool {
        let g = self.guest;
        let ss = self.original_states@;
        let ys = self.original_symbols@;
        &&& self.inv()
        &&& g.inv()
        &&& closed(g)
        &&& ss == g.spec_states()
        &&& ys == g.spec_symbols()
        &&& ss.len() <= 256
        &&& ys.len() <= 256
        &&& self.n_states == ss.len()
        &&& self.n_symbols == ys.len()
        &&& self.initial == CState(position(ss, g.spec_initial()) as u8)
        &&& self.blank == CSymbol(position(ys, g.spec_blank()) as u8)
        &&& forall|i: int|
            0 <= i < ss.len() ==> (self.accept@.contains(CState(i as u8)) == g.spec_accepting(
                #[trigger] ss[i],
            ))
        &&& forall|q: int| 0 <= q < self.accept@.len() ==> (#[trigger] self.accept@[q]).0 < ss.len()
        &&& forall|i: int, j: int|
            0 <= i < 256 && 0 <= j < 256 ==> #[trigger] self.transitions@[flat(i, j)] == if i
                < ss.len() && j < ys.len() {
                compile_transition(ss, ys, g.spec_transition(ss[i], ys[j]))
            } else {
                None
            }
    }

    /// Whether a compiled configuration names only states and symbols of
    /// the guest.
    pub open spec fn valid_config(&self, c: TmConfig<CState, CSymbol>) -> bool {
        &&& (c.state.0 as int) < self.original_states@.len()
        &&& forall|k: int| 0 <= k < c.tape.len() ==> ((#[trigger] c.tape[k]).0 as int) < self.original_symbols@.len()
    }

    /// The guest configuration that a compiled configuration stands for.
    pub open spec fn decompile_config(&self, c: TmConfig<CState, CSymbol>) -> TmConfig<
        Guest::State,
        Guest::Symbol,
    > {
        TmConfig {
            state: self.original_states@[c.state.0 as int],
            pos: c.pos,
            tape: c.tape.map_values(|y: CSymbol| self.original_symbols@[y.0 as int]),
        }
    }

    /// Compiles a guest whose description is closed; fails when it has more
    /// than 256 states or more than 256 symbols.
    pub fn compile(guest: &'a Guest) -> (r: Result<CompiledTuringMachineSpec<'a, Guest>, CompileError>)
        requires
            guest.inv(),
            closed(guest),
        ensures
            guest.spec_states().len() > 256 ==> r == Err::<CompiledTuringMachineSpec<'a, Guest>, CompileError>(CompileError::TooManyStates),
            guest.spec_states().len() <= 256 && guest.spec_symbols().len() > 256 ==> r == Err::<CompiledTuringMachineSpec<'a, Guest>, CompileError>(
                CompileError::TooManySymbols,
            ),
            guest.spec_states().len() <= 256 && guest.spec_symbols().len() <= 256 ==> (r matches Ok(
                c,
            ) && c.compiles() && c.guest == guest),
    {
        let original_states = guest.iter_states();
        if original_states.len() > 256 {
            return Err(CompileError::TooManyStates);
        }
        let original_symbols = guest.iter_symbols();
        if original_symbols.len() > 256 {
            return Err(CompileError::TooManySymbols);
        }
        let ghost ss = original_states@;
        let ghost ys = original_symbols@;
        let mut transitions: Vec<Option<(CState, CSymbol, Dir)>> = Vec::new();
        let mut i: usize = 0;
        while i < TABLE_SIZE
            invariant
                i <= TABLE_SIZE,
                transitions@.len() == i,
                forall|j: int| 0 <= j < i ==> (#[trigger] transitions@[j]) is None,
            decreases TABLE_SIZE - i,
        {
            transitions.push(None);
            i = i + 1;
        }
        let rules = guest.iter_rules();
        proof {
            guest.lemma_rules();
        }
        let mut k: usize = 0;
        while k < rules.len()
            invariant
                k <= rules@.len(),
                guest.inv(),
                closed(guest),
                rules@ == guest.spec_rules(),
                ss == guest.spec_states(),
                ys == guest.spec_symbols(),
                original_states@ == ss,
                original_symbols@ == ys,
                ss.len() <= 256,
                ys.len() <= 256,
                transitions@.len() == TABLE_SIZE,
                forall|i: int|
                    0 <= i < rules@.len() ==> {
                        let r = #[trigger] rules@[i];
                        guest.spec_transition(r.0, r.1) == Some((r.2, r.3, r.4))
                    },
                forall|a: int, b: int|
                    0 <= a < 256 && 0 <= b < 256 && (#[trigger] transitions@[flat(a, b)]) is Some
                        ==> a < ss.len() && b < ys.len() && transitions@[flat(a, b)]
                        == compile_transition(ss, ys, guest.spec_transition(ss[a], ys[b])),
                forall|q: int|
                    0 <= q < k ==> (#[trigger] transitions@[flat(
                        position(ss, rules@[q].0),
                        position(ys, rules@[q].1),
                    )]) is Some,
            decreases rules.len() - k,
        {
            let r = rules[k];
            proof {
                assert(rules@[k as int] == r);
                assert(guest.spec_rules()[k as int] == r);
            }
            let ps = find_position(&original_states, &r.0);
            let py = find_position(&original_symbols, &r.1);
            let pns = find_position(&original_states, &r.2);
            let pny = find_position(&original_symbols, &r.3);
            proof {
                lemma_flat_bounds(ps as int, py as int);
            }
            let idx = ps * 256 + py;
            let ghost prev = transitions@;
            transitions.set(idx, Some((CState(pns as u8), CSymbol(pny as u8), r.4)));
            proof {
                assert forall|a: int, b: int|
                    0 <= a < 256 && 0 <= b < 256 && (#[trigger] transitions@[flat(a, b)]) is Some
                        implies a < ss.len() && b < ys.len() && transitions@[flat(a, b)]
                        == compile_transition(ss, ys, guest.spec_transition(ss[a], ys[b])) by {
                    lemma_flat_bounds(a, b);
                    if flat(a, b) == idx {
                        assert(a == ps && b == py);
                    } else {
                        assert(prev[flat(a, b)] == transitions@[flat(a, b)]);
                    }
                }
                assert forall|q: int|
                    0 <= q < k + 1 implies (#[trigger] transitions@[flat(
                        position(ss, rules@[q].0),
                        position(ys, rules@[q].1),
                    )]) is Some by {
                    if q < k {
                        let fq = flat(position(ss, rules@[q].0), position(ys, rules@[q].1));
                        assert(prev[fq] is Some);
                    }
                }
            }
            k = k + 1;
        }
        proof {
            assert forall|a: int, b: int|
                0 <= a < 256 && 0 <= b < 256 implies #[trigger] transitions@[flat(a, b)] == if a
                    < ss.len() && b < ys.len() {
                    compile_transition(ss, ys, guest.spec_transition(ss[a], ys[b]))
                } else {
                    None
                } by {
                if transitions@[flat(a, b)] is None && a < ss.len() && b < ys.len() {
                    if guest.spec_transition(ss[a], ys[b]) is Some {
                        let q = choose|q: int|
                            0 <= q < guest.spec_rules().len() && (#[trigger] guest.spec_rules()[q]).0
                                == ss[a] && guest.spec_rules()[q].1 == ys[b];
                        let p1 = position(ss, rules@[q].0);
                        let p2 = position(ys, rules@[q].1);
                        assert(ss.contains(ss[a]));
                        assert(ys.contains(ys[b]));
                        assert(ss[p1] == ss[a]);
                        assert(ys[p2] == ys[b]);
                        if p1 != a {
                            assert(ss[p1] != ss[a]);
                        }
                        if p2 != b {
                            assert(ys[p2] != ys[b]);
                        }
                        assert(transitions@[flat(p1, p2)] is Some);
                    }
                }
            }
        }
        let gi = guest.initial();
        let gb = guest.blank();
        let initial = CState(find_position(&original_states, &gi) as u8);
        let blank = CSymbol(find_position(&original_symbols, &gb) as u8);
        let mut accept: Vec<CState> = Vec::new();
        let mut i: usize = 0;
        while i < original_states.len()
            invariant
                i <= original_states@.len(),
                guest.inv(),
                original_states@ == ss,
                ss.len() <= 256,
                forall|a: int|
                    0 <= a < i ==> (accept@.contains(CState(a as u8)) == guest.spec_accepting(
                        #[trigger] ss[a],
                    )),
                forall|q: int| 0 <= q < accept@.len() ==> ((#[trigger] accept@[q]).0 as int) < i,
            decreases original_states.len() - i,
        {
            let s = original_states[i];
            if guest.is_accepting(s) {
                let ghost prev = accept@;
                accept.push(CState(i as u8));
                proof {
                    assert forall|a: int|
                        0 <= a < i + 1 implies (accept@.contains(CState(a as u8))
                            == guest.spec_accepting(#[trigger] ss[a])) by {
                        if a < i {
                            if accept@.contains(CState(a as u8)) {
                                let q = choose|q: int| 0 <= q < accept@.len() && accept@[q] == CState(a as u8);
                                if q < prev.len() {
                                    assert(prev[q] == CState(a as u8));
                                }
                            }
                            if prev.contains(CState(a as u8)) {
                                let q = choose|q: int| 0 <= q < prev.len() && prev[q] == CState(a as u8);
                                assert(accept@[q] == CState(a as u8));
                            }
                        } else {
                            assert(accept@[prev.len() as int] == CState(a as u8));
                        }
                    }
                }
            } else {
                proof {
                    assert forall|a: int|
                        0 <= a < i + 1 implies (accept@.contains(CState(a as u8))
                            == guest.spec_accepting(#[trigger] ss[a])) by {
                        if a == i {
                            if accept@.contains(CState(a as u8)) {
                                let q = choose|q: int| 0 <= q < accept@.len() && accept@[q] == CState(a as u8);
                                assert(accept@[q].0 < i);
                            }
                        }
                    }
                }
            }
            i = i + 1;
        }
        Ok(
            CompiledTuringMachineSpec {
                n_states: original_states.len() as u16,
                n_symbols: original_symbols.len() as u16,
                initial,
                accept,
                blank,
                transitions,
                guest,
                original_states,
                original_symbols,
            },
        )
    }

    /// The compiled state of a guest state.
    pub fn compile_state(&self, state: Guest::State) -> (r: CState)
        requires
            self.original_states@.contains(state),
            self.original_states@.no_duplicates(),
            self.original_states@.len() <= 256,
        ensures
            r == CState(position(self.original_states@, state) as u8),
            self.original_states@[r.0 as int] == state,
    {
        CState(find_position(&self.original_states, &state) as u8)
    }

    /// The compiled symbol of a guest symbol.
    pub fn compile_symbol(&self, symbol: Guest::Symbol) -> (r: CSymbol)
        requires
            self.original_symbols@.contains(symbol),
            self.original_symbols@.no_duplicates(),
            self.original_symbols@.len() <= 256,
        ensures
            r == CSymbol(position(self.original_symbols@, symbol) as u8),
            self.original_symbols@[r.0 as int] == symbol,
    {
        CSymbol(find_position(&self.original_symbols, &symbol) as u8)
    }

    /// The guest symbol of a compiled symbol.
    pub fn decompile_symbol(&self, symbol: CSymbol) -> (r: Guest::Symbol)
        requires
            (symbol.0 as int) < self.original_symbols@.len(),
        ensures
            r == self.original_symbols@[symbol.0 as int],
    {
        self.original_symbols[symbol.0 as usize]
    }

    /// The guest state of a compiled state.
    pub fn decompile_state(&self, state: CState) -> (r: Guest::State)
        requires
            (state.0 as int) < self.original_states@.len(),
        ensures
            r == self.original_states@[state.0 as int],
    {
        self.original_states[state.0 as usize]
    }

    /// The guest machine that a running compiled machine stands for.
    pub fn decompile(&self, tm: &RunningTuringMachine<Self>) -> (r: RunningTuringMachine<'a, Guest>)
        requires
            self.valid_config(tm.config()),
        ensures
            r.spec == self.guest,
            r.config() == self.decompile_config(tm.config()),
    {
        let mut tape: Vec<Guest::Symbol> = Vec::new();
        let mut i: usize = 0;
        while i < tm.tape.len()
            invariant
                i <= tm.tape@.len(),
                self.valid_config(tm.config()),
                tape@ == tm.tape@.take(i as int).map_values(|y: CSymbol| self.original_symbols@[y.0 as int]),
            decreases tm.tape.len() - i,
        {
            assert(tm.tape@[i as int] == tm.config().tape[i as int]);
            tape.push(self.original_symbols[tm.tape[i].0 as usize]);
            assert(tm.tape@.take(i + 1).map_values(|y: CSymbol| self.original_symbols@[y.0 as int])
                =~= tm.tape@.take(i as int).map_values(|y: CSymbol| self.original_symbols@[y.0 as int]).push(self.original_symbols@[tm.tape@[i as int].0 as int]));
            i = i + 1;
        }
        assert(tm.tape@.take(i as int) =~= tm.tape@);
        RunningTuringMachine {
            spec: self.guest,
            state: self.original_states[tm.state.0 as usize],
            pos: tm.pos,
            tape,
        }
    }
}


impl<'a, Guest: TuringMachineSpec> CompiledTuringMachineSpec<'a, Guest> {
    proof fn lemma_position_roundtrip<T>(s: Seq<T>, x: T)
        requires
            s.contains(x),
            s.len() <= 256,
        ensures
            0 <= position(s, x) < s.len(),
            s[position(s, x)] == x,
            ((position(s, x) as u8) as int) == position(s, x),
    {
    }

    /// Padding the tape commutes with decompiling.
    pub proof fn lemma_pad_commutes(&self, c: TmConfig<CState, CSymbol>)
        requires
            self.compiles(),
            self.valid_config(c),
        ensures
            self.valid_config(pad_config(self, c)),
            self.decompile_config(pad_config(self, c)) == pad_config(self.guest, self.decompile_config(c)),
    {
        let ys = self.original_symbols@;
        Self::lemma_position_roundtrip(ys, self.guest.spec_blank());
        let lhs = self.decompile_config(pad_config(self, c)).tape;
        let rhs = pad_config(self.guest, self.decompile_config(c)).tape;
        assert(lhs =~= rhs);
    }

    /// One step of a compiled machine is one step of its guest.
    pub proof fn lemma_step_commutes(&self, c: TmConfig<CState, CSymbol>)
        requires
            self.compiles(),
            self.valid_config(c),
            c.pos < c.tape.len(),
        ensures
            match step_config(self, c) {
                Some(c2) => self.valid_config(c2) && step_config(self.guest, self.decompile_config(c))
                    == Some(self.decompile_config(c2)),
                None => step_config(self.guest, self.decompile_config(c)) is None,
            },
            self.spec_accepting(c.state) == self.guest.spec_accepting(self.decompile_config(c).state),
    {
        let g = self.guest;
        let ss = self.original_states@;
        let ys = self.original_symbols@;
        let i = c.state.0 as int;
        let j = c.tape[c.pos as int].0 as int;
        let d = self.decompile_config(c);
        assert(d.tape[c.pos as int] == ys[j]);
        assert(self.transitions@[flat(i, j)] == compile_transition(ss, ys, g.spec_transition(ss[i], ys[j])));
        assert(c.state == CState(i as u8));
        assert(self.accept@.contains(CState(i as u8)) == g.spec_accepting(ss[i]));
        match g.spec_transition(ss[i], ys[j]) {
            Some((ns, nsym, dir)) => {
                g.lemma_rules();
                let q = choose|q: int|
                    0 <= q < g.spec_rules().len() && (#[trigger] g.spec_rules()[q]).0 == ss[i]
                        && g.spec_rules()[q].1 == ys[j];
                let r = g.spec_rules()[q];
                assert(g.spec_transition(r.0, r.1) == Some((r.2, r.3, r.4)));
                Self::lemma_position_roundtrip(ss, ns);
                Self::lemma_position_roundtrip(ys, nsym);
                let c2 = step_config(self, c)->0;
                assert(self.decompile_config(c2).tape =~= d.tape.update(c.pos as int, nsym));
            },
            None => {},
        }
    }

    /// A run of a compiled machine is a run of its guest: the outcome is the
    /// same and the final configurations correspond.
    pub proof fn lemma_run_commutes(&self, c: TmConfig<CState, CSymbol>, fuel: nat, done: nat)
        requires
            self.compiles(),
            self.valid_config(c),
        ensures
            self.valid_config(run_config(self, c, fuel, done).1),
            run_config(self.guest, self.decompile_config(c), fuel, done) == (
                run_config(self, c, fuel, done).0,
                self.decompile_config(run_config(self, c, fuel, done).1),
            ),
        decreases fuel,
    {
        if fuel > 0 {
            let c1 = pad_config(self, c);
            self.lemma_pad_commutes(c);
            self.lemma_step_commutes(c1);
            match step_config(self, c1) {
                Some(c2) => {
                    self.lemma_run_commutes(c2, (fuel - 1) as nat, done + 1);
                },
                None => {},
            }
        }
    }
}

/// Law: running a compiled machine and decompiling the result is running
/// its guest.
pub proof fn lemma_compile_run_decompile<'a, Guest: TuringMachineSpec>(
    compiled: &CompiledTuringMachineSpec<'a, Guest>,
    c: TmConfig<CState, CSymbol>,
    max_steps: nat,
)
    requires
        compiled.compiles(),
        compiled.valid_config(c),
    ensures
        run_config(compiled.guest, compiled.decompile_config(c), max_steps, 0) == (
            run_config(compiled, c, max_steps, 0).0,
            compiled.decompile_config(run_config(compiled, c, max_steps, 0).1),
        ),
{
    compiled.lemma_run_commutes(c, max_steps, 0);
}

} // verus!
