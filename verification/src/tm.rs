//! Turing machines: labels, machine descriptions, running machines and
//! their step semantics.
use vstd::prelude::*;

verus! {

/// The direction in which the head moves after a transition.
#[derive(Debug, Clone, Copy, PartialEq, Eq, Hash, PartialOrd, Ord, Structural)]
pub enum Dir {
    Left,
    Right,
}

/// A state or symbol name.  Every label has a distinct index; machine
/// tables are laid out by these indices.
pub trait Label: Copy + PartialEq + Eq + core::fmt::Debug + Sized {
    spec fn spec_index(self) -> nat;

    fn index(&self) -> (r: usize)
        ensures
            r as nat == self.spec_index(),
    ;

    proof fn lemma_index_injective(a: Self, b: Self)
        ensures
            a.spec_index() == b.spec_index() ==> a == b,
    ;
}

/// Whether two labels are the same label.
pub fn same_label<L: Label>(a: &L, b: &L) -> (r: bool)
    ensures
        r == (*a == *b),
{
    proof {
        L::lemma_index_injective(*a, *b);
    }
    a.index() == b.index()
}

impl Label for u8 {
    open spec fn spec_index(self) -> nat {
        self as nat
    }

    fn index(&self) -> (r: usize) {
        *self as usize
    }

    proof fn lemma_index_injective(a: Self, b: Self) {
    }
}

impl Label for usize {
    open spec fn spec_index(self) -> nat {
        self as nat
    }

    fn index(&self) -> (r: usize) {
        *self
    }

    proof fn lemma_index_injective(a: Self, b: Self) {
    }
}


/// A rule: state, symbol, new state, new symbol, direction.
pub type Rule<S, Y> = (S, Y, S, Y, Dir);

/// A Turing machine description.
pub trait TuringMachineSpec: Sized {
    type State: Label;
    type Symbol: Label;

    /// The representation invariant of the description.
    spec fn inv(&self) -> bool;

    spec fn spec_initial(&self) -> Self::State;

    spec fn spec_blank(&self) -> Self::Symbol;

    spec fn spec_accepting(&self, state: Self::State) -> bool;

    spec fn spec_transition(&self, state: Self::State, symbol: Self::Symbol) -> Option<
        (Self::State, Self::Symbol, Dir),
    >;

    spec fn spec_states(&self) -> Seq<Self::State>;

    spec fn spec_symbols(&self) -> Seq<Self::Symbol>;

    spec fn spec_rules(&self) -> Seq<Rule<Self::State, Self::Symbol>>;

    fn initial(&self) -> (r: Self::State)
        requires
            self.inv(),
        ensures
            r == self.spec_initial(),
    ;

    fn blank(&self) -> (r: Self::Symbol)
        requires
            self.inv(),
        ensures
            r == self.spec_blank(),
    ;

    fn is_accepting(&self, state: Self::State) -> (r: bool)
        requires
            self.inv(),
        ensures
            r == self.spec_accepting(state),
    ;

    fn get_transition(&self, state: Self::State, symbol: Self::Symbol) -> (r: Option<
        (Self::State, Self::Symbol, Dir),
    >)
        requires
            self.inv(),
        ensures
            r == self.spec_transition(state, symbol),
    ;

    fn iter_states(&self) -> (r: Vec<Self::State>)
        requires
            self.inv(),
        ensures
            r@ == self.spec_states(),
    ;

    fn iter_symbols(&self) -> (r: Vec<Self::Symbol>)
        requires
            self.inv(),
        ensures
            r@ == self.spec_symbols(),
    ;

    fn iter_rules(&self) -> (r: Vec<Rule<Self::State, Self::Symbol>>)
        requires
            self.inv(),
        ensures
            r@ == self.spec_rules(),
    ;

    /// The rule list and the transition function describe the same table,
    /// and the list is in key order: by state, then by symbol.
    proof fn lemma_rules(&self)
        requires
            self.inv(),
        ensures
            forall|i: int, j: int|
                0 <= i < j < self.spec_rules().len() ==> rule_key_before(
                    #[trigger] self.spec_rules()[i],
                    #[trigger] self.spec_rules()[j],
                ),
            forall|i: int|
                0 <= i < self.spec_rules().len() ==> {
                    let r = #[trigger] self.spec_rules()[i];
                    self.spec_transition(r.0, r.1) == Some((r.2, r.3, r.4))
                },
            forall|s: Self::State, y: Self::Symbol|
                (#[trigger] self.spec_transition(s, y)) is Some ==> exists|i: int|
                    0 <= i < self.spec_rules().len() && (#[trigger] self.spec_rules()[i]).0 == s
                        && self.spec_rules()[i].1 == y,
    ;
}

/// A description is closed when its state and symbol lists have no
/// repetitions and name every state and symbol that its rules, its initial
/// state and its blank mention.
pub open spec fn closed<Spec: TuringMachineSpec>(spec: &Spec) -> bool {
    &&& spec.spec_states().no_duplicates()
    &&& spec.spec_symbols().no_duplicates()
    &&& spec.spec_states().contains(spec.spec_initial())
    &&& spec.spec_symbols().contains(spec.spec_blank())
    &&& forall|i: int|
        0 <= i < spec.spec_rules().len() ==> {
            let r = #[trigger] spec.spec_rules()[i];
            &&& spec.spec_states().contains(r.0)
            &&& spec.spec_symbols().contains(r.1)
            &&& spec.spec_states().contains(r.2)
            &&& spec.spec_symbols().contains(r.3)
        }
}

/// The values of the `Some` entries of a sequence, in order.
pub open spec fn some_entries<T>(s: Seq<Option<T>>) -> Seq<T>
    decreases s.len(),
{
    if s.len() == 0 {
        Seq::empty()
    } else {
        let rest = some_entries(s.drop_last());
        match s.last() {
            Some(v) => rest.push(v),
            None => rest,
        }
    }
}

pub proof fn lemma_some_entries_sound<T>(s: Seq<Option<T>>, k: int)
    requires
        0 <= k < some_entries(s).len(),
    ensures
        exists|i: int| 0 <= i < s.len() && s[i] == Some(some_entries(s)[k]),
    decreases s.len(),
{
    let rest = some_entries(s.drop_last());
    if k < rest.len() {
        lemma_some_entries_sound(s.drop_last(), k);
        let i = choose|i: int| 0 <= i < s.drop_last().len() && s.drop_last()[i] == Some(rest[k]);
        assert(s[i] == Some(some_entries(s)[k]));
    } else {
        assert(s[s.len() - 1] == Some(some_entries(s)[k]));
    }
}

pub proof fn lemma_some_entries_complete<T>(s: Seq<Option<T>>, i: int)
    requires
        0 <= i < s.len(),
        s[i] is Some,
    ensures
        some_entries(s).contains(s[i]->0),
    decreases s.len(),
{
    if i < s.len() - 1 {
        lemma_some_entries_complete(s.drop_last(), i);
        let rest = some_entries(s.drop_last());
        let k = choose|k: int| 0 <= k < rest.len() && rest[k] == s[i]->0;
        assert(some_entries(s)[k] == s[i]->0);
    } else {
        let rest = some_entries(s.drop_last());
        assert(some_entries(s)[rest.len() as int] == s[i]->0);
    }
}

/// The last rule of a list whose state and symbol are the given ones.
pub open spec fn lookup_rules<S, Y>(rules: Seq<Rule<S, Y>>, s: S, y: Y) -> Option<(S, Y, Dir)>
    decreases rules.len(),
{
    if rules.len() == 0 {
        None
    } else {
        let r = rules.last();
        if r.0 == s && r.1 == y {
            Some((r.2, r.3, r.4))
        } else {
            lookup_rules(rules.drop_last(), s, y)
        }
    }
}

/// A machine description given by lists of states, symbols, accepting
/// states and rules.  When two rules share a state and a symbol, the later
/// one counts.
#[derive(Debug, Clone, PartialEq, Eq)]
pub struct SimpleTuringMachineSpec<State: Label, Symbol: Label> {
    initial: State,
    blank: Symbol,
    accepting: Vec<State>,
    all_states: Vec<State>,
    all_symbols: Vec<Symbol>,
    state_bound: usize,
    symbol_bound: usize,
    table: Vec<Option<Rule<State, Symbol>>>,
    accept_table: Vec<bool>,
}

/// One more than the largest index of a list of labels (0 for none).
pub open spec fn index_bound<L: Label>(s: Seq<L>) -> nat
    decreases s.len(),
{
    if s.len() == 0 {
        0
    } else {
        let rest = index_bound(s.drop_last());
        let here = s.last().spec_index() + 1;
        if here > rest { here } else { rest }
    }
}

pub proof fn lemma_index_bound<L: Label>(s: Seq<L>, i: int)
    requires
        0 <= i < s.len(),
    ensures
        s[i].spec_index() < index_bound(s),
    decreases s.len(),
{
    if i < s.len() - 1 {
        lemma_index_bound(s.drop_last(), i);
    }
}

/// A list of labels whose indices are all below `b` has an index bound of
/// at most `b`.
pub proof fn lemma_index_bound_at_most<L: Label>(s: Seq<L>, b: nat)
    requires
        forall|i: int| 0 <= i < s.len() ==> (#[trigger] s[i]).spec_index() < b,
    ensures
        index_bound(s) <= b,
    decreases s.len(),
{
    if s.len() > 0 {
        assert forall|i: int| 0 <= i < s.drop_last().len() implies (#[trigger] s.drop_last()[i]).spec_index() < b by {
            assert(s.drop_last()[i] == s[i]);
        }
        lemma_index_bound_at_most(s.drop_last(), b);
        assert(s.last() == s[s.len() - 1]);
    }
}

/// A rule list has a rule for a state and symbol exactly when looking
/// them up finds one.
pub proof fn lemma_lookup_rules_found<S, Y>(rules: Seq<Rule<S, Y>>, s: S, y: Y)
    ensures
        lookup_rules(rules, s, y) is Some <==> exists|i: int|
            0 <= i < rules.len() && (#[trigger] rules[i]).0 == s && rules[i].1 == y,
    decreases rules.len(),
{
    if rules.len() > 0 {
        lemma_lookup_rules_found(rules.drop_last(), s, y);
        if lookup_rules(rules, s, y) is Some {
            if !(rules.last().0 == s && rules.last().1 == y) {
                let i = choose|i: int| 0 <= i < rules.drop_last().len() && (#[trigger] rules.drop_last()[i]).0 == s
                    && rules.drop_last()[i].1 == y;
                assert(rules[i] == rules.drop_last()[i]);
            } else {
                assert(rules[rules.len() - 1] == rules.last());
            }
        } else {
            assert forall|i: int| 0 <= i < rules.len() implies !((#[trigger] rules[i]).0 == s && rules[i].1 == y) by {
                if i < rules.len() - 1 {
                    assert(rules[i] == rules.drop_last()[i]);
                }
            }
        }
    }
}

fn compute_index_bound<L: Label>(labels: &Vec<L>, start: usize) -> (r: usize)
    requires
        index_bound(labels@) <= usize::MAX,
    ensures
        r == if start as nat > index_bound(labels@) { start as nat } else { index_bound(labels@) },
{
    let mut b = start;
    let mut i: usize = 0;
    while i < labels.len()
        invariant
            i <= labels.len(),
            index_bound(labels@) <= usize::MAX,
            b == if start as nat > index_bound(labels@.take(i as int)) { start as nat } else { index_bound(labels@.take(i as int)) },
        decreases labels.len() - i,
    {
        assert(labels@.take(i + 1).drop_last() =~= labels@.take(i as int));
        proof { lemma_index_bound(labels@, i as int); }
        let here = labels[i].index() + 1;
        if here > b {
            b = here;
        }
        i = i + 1;
    }
    assert(labels@.take(i as int) =~= labels@);
    b
}


pub proof fn lemma_flat_index(si: int, yi: int, sb: int, yb: int)
    requires
        0 <= si < sb,
        0 <= yi < yb,
    ensures
        0 <= si * yb + yi < sb * yb,
{
    assert(si * yb + yi < sb * yb) by (nonlinear_arith)
        requires
            0 <= si < sb,
            0 <= yi < yb,
    ;
    assert(0 <= si * yb) by (nonlinear_arith)
        requires
            0 <= si,
            0 <= yb,
    ;
}

pub proof fn lemma_flat_index_unique(si: int, yi: int, sj: int, yj: int, yb: int)
    requires
        0 <= si,
        0 <= sj,
        0 <= yi < yb,
        0 <= yj < yb,
        si * yb + yi == sj * yb + yj,
    ensures
        si == sj,
        yi == yj,
{
    if si < sj {
        assert(si * yb + yi < sj * yb + yj) by (nonlinear_arith)
            requires
                si < sj,
                0 <= yi < yb,
                0 <= yj,
        ;
    } else if sj < si {
        assert(sj * yb + yj < si * yb + yi) by (nonlinear_arith)
            requires
                sj < si,
                0 <= yj < yb,
                0 <= yi,
        ;
    }
}

/// The entry of a flat table for a state and a symbol.
pub open spec fn table_lookup<S: Label, Y: Label>(
    table: Seq<Option<Rule<S, Y>>>,
    state_bound: nat,
    symbol_bound: nat,
    s: S,
    y: Y,
) -> Option<(S, Y, Dir)> {
    if s.spec_index() < state_bound && y.spec_index() < symbol_bound {
        match table[(s.spec_index() * symbol_bound + y.spec_index()) as int] {
            Some(r) => Some((r.2, r.3, r.4)),
            None => None,
        }
    } else {
        None
    }
}

/// Every entry of a flat table sits at the place that its state and symbol
/// give it.
pub open spec fn table_consistent<S: Label, Y: Label>(
    table: Seq<Option<Rule<S, Y>>>,
    state_bound: nat,
    symbol_bound: nat,
) -> bool {
    &&& table.len() == state_bound * symbol_bound
    &&& forall|i: int|
        0 <= i < table.len() && (#[trigger] table[i]) is Some ==> {
            let r = table[i]->0;
            &&& r.0.spec_index() < state_bound
            &&& r.1.spec_index() < symbol_bound
            &&& r.0.spec_index() * symbol_bound + r.1.spec_index() == i
        }
}

impl<State: Label, Symbol: Label> SimpleTuringMachineSpec<State, Symbol> {
    /// The bounds of the label indices that a description uses.
    pub open spec fn state_labels(
        initial: State,
        accepting: Seq<State>,
        rules: Seq<Rule<State, Symbol>>,
        all_states: Seq<State>,
    ) -> Seq<State> {
        all_states + accepting + seq![initial] + rules.map_values(|r: Rule<State, Symbol>| r.0)
            + rules.map_values(|r: Rule<State, Symbol>| r.2)
    }

    pub open spec fn symbol_labels(
        blank: Symbol,
        rules: Seq<Rule<State, Symbol>>,
        all_symbols: Seq<Symbol>,
    ) -> Seq<Symbol> {
        all_symbols + seq![blank] + rules.map_values(|r: Rule<State, Symbol>| r.1)
            + rules.map_values(|r: Rule<State, Symbol>| r.3)
    }

    /// Builds a description.  `requires` holds the machine limit: the table
    /// of all state and symbol indices must fit in memory.
    pub fn new(
        initial: State,
        accepting: Vec<State>,
        blank: Symbol,
        rules: Vec<Rule<State, Symbol>>,
        all_states: Vec<State>,
        all_symbols: Vec<Symbol>,
    ) -> (r: Self)
        requires
            index_bound(Self::state_labels(initial, accepting@, rules@, all_states@))
                * index_bound(Self::symbol_labels(blank, rules@, all_symbols@)) <= usize::MAX,
        ensures
            r.inv(),
            r.spec_initial() == initial,
            r.spec_blank() == blank,
            r.spec_states() == all_states@,
            r.spec_symbols() == all_symbols@,
            forall|s: State| #[trigger] r.spec_accepting(s) == accepting@.contains(s),
            forall|s: State, y: Symbol|
                #[trigger] r.spec_transition(s, y) == lookup_rules(rules@, s, y),
    {
        let ghost sl = Self::state_labels(initial, accepting@, rules@, all_states@);
        let ghost yl = Self::symbol_labels(blank, rules@, all_symbols@);
        let mut state_labels: Vec<State> = copy_vec(&all_states);
        let mut k: usize = 0;
        while k < accepting.len()
            invariant
                k <= accepting.len(),
                state_labels@ == all_states@ + accepting@.take(k as int),
            decreases accepting.len() - k,
        {
            state_labels.push(accepting[k]);
            assert(accepting@.take(k + 1) =~= accepting@.take(k as int).push(accepting@[k as int]));
            k = k + 1;
        }
        assert(accepting@.take(k as int) =~= accepting@);
        state_labels.push(initial);
        let mut symbol_labels: Vec<Symbol> = copy_vec(&all_symbols);
        symbol_labels.push(blank);
        let ghost firsts = rules@.map_values(|r: Rule<State, Symbol>| r.0);
        let ghost thirds = rules@.map_values(|r: Rule<State, Symbol>| r.2);
        let ghost seconds = rules@.map_values(|r: Rule<State, Symbol>| r.1);
        let ghost fourths = rules@.map_values(|r: Rule<State, Symbol>| r.3);
        let ghost s_base = state_labels@;
        let ghost y_base = symbol_labels@;
        let mut state_tail: Vec<State> = Vec::new();
        let mut symbol_tail: Vec<Symbol> = Vec::new();
        k = 0;
        while k < rules.len()
            invariant
                k <= rules.len(),
                firsts == rules@.map_values(|r: Rule<State, Symbol>| r.0),
                thirds == rules@.map_values(|r: Rule<State, Symbol>| r.2),
                seconds == rules@.map_values(|r: Rule<State, Symbol>| r.1),
                fourths == rules@.map_values(|r: Rule<State, Symbol>| r.3),
                state_labels@ == s_base + firsts.take(k as int),
                state_tail@ == thirds.take(k as int),
                symbol_labels@ == y_base + seconds.take(k as int),
                symbol_tail@ == fourths.take(k as int),
            decreases rules.len() - k,
        {
            let r = rules[k];
            state_labels.push(r.0);
            state_tail.push(r.2);
            symbol_labels.push(r.1);
            symbol_tail.push(r.3);
            assert(firsts.take(k + 1) =~= firsts.take(k as int).push(r.0));
            assert(thirds.take(k + 1) =~= thirds.take(k as int).push(r.2));
            assert(seconds.take(k + 1) =~= seconds.take(k as int).push(r.1));
            assert(fourths.take(k + 1) =~= fourths.take(k as int).push(r.3));
            k = k + 1;
        }
        assert(firsts.take(k as int) =~= firsts);
        assert(thirds.take(k as int) =~= thirds);
        assert(seconds.take(k as int) =~= seconds);
        assert(fourths.take(k as int) =~= fourths);
        state_labels.append(&mut state_tail);
        symbol_labels.append(&mut symbol_tail);
        assert(state_labels@ =~= sl);
        assert(symbol_labels@ =~= yl);
        proof {
            assert(yl[all_symbols@.len() as int] == blank);
            assert(sl[(all_states@.len() + accepting@.len()) as int] == initial);
            lemma_index_bound(yl, all_symbols@.len() as int);
            lemma_index_bound(sl, (all_states@.len() + accepting@.len()) as int);
            assert(index_bound(sl) <= usize::MAX) by (nonlinear_arith)
                requires
                    index_bound(sl) * index_bound(yl) <= usize::MAX,
                    index_bound(yl) >= 1;
            assert(index_bound(yl) <= usize::MAX) by (nonlinear_arith)
                requires
                    index_bound(sl) * index_bound(yl) <= usize::MAX,
                    index_bound(sl) >= 1;
        }
        let sb = compute_index_bound(&state_labels, 0);
        let yb = compute_index_bound(&symbol_labels, 0);
        let size = sb * yb;
        let mut table: Vec<Option<Rule<State, Symbol>>> = Vec::new();
        let mut i: usize = 0;
        while i < size
            invariant
                i <= size,
                table@.len() == i,
                forall|j: int| 0 <= j < i ==> (#[trigger] table@[j]) is None,
            decreases size - i,
        {
            table.push(None);
            i = i + 1;
        }
        proof {
            assert forall|s: State, y: Symbol|
                #[trigger] table_lookup(table@, sb as nat, yb as nat, s, y) == lookup_rules(
                    rules@.take(0),
                    s,
                    y,
                ) by {
                if s.spec_index() < sb && y.spec_index() < yb {
                    lemma_flat_index(s.spec_index() as int, y.spec_index() as int, sb as int, yb as int);
                }
            }
        }
        k = 0;
        while k < rules.len()
            invariant
                k <= rules.len(),
                sb == index_bound(sl),
                yb == index_bound(yl),
                sb * yb <= usize::MAX,
                sl == Self::state_labels(initial, accepting@, rules@, all_states@),
                yl == Self::symbol_labels(blank, rules@, all_symbols@),
                table_consistent(table@, sb as nat, yb as nat),
                forall|s: State, y: Symbol|
                    #[trigger] table_lookup(table@, sb as nat, yb as nat, s, y) == lookup_rules(
                        rules@.take(k as int),
                        s,
                        y,
                    ),
            decreases rules.len() - k,
        {
            let r = rules[k];
            proof {
                let nr = rules@.len();
                assert(sl[(all_states@.len() + accepting@.len() + 1 + k) as int] == r.0);
                assert(yl[(all_symbols@.len() + 1 + k) as int] == r.1);
                lemma_index_bound(sl, (all_states@.len() + accepting@.len() + 1 + k) as int);
                lemma_index_bound(yl, (all_symbols@.len() + 1 + k) as int);
                assert(sl[(all_states@.len() + accepting@.len() + 1 + nr + k) as int] == r.2);
                assert(yl[(all_symbols@.len() + 1 + nr + k) as int] == r.3);
                lemma_index_bound(sl, (all_states@.len() + accepting@.len() + 1 + nr + k) as int);
                lemma_index_bound(yl, (all_symbols@.len() + 1 + nr + k) as int);
                lemma_flat_index(r.0.spec_index() as int, r.1.spec_index() as int, sb as int, yb as int);
            }
            let idx = r.0.index() * yb + r.1.index();
            let ghost prev = table;
            table.set(idx, Some(r));
            proof {
                assert(rules@.take(k + 1).drop_last() =~= rules@.take(k as int));
                assert forall|s: State, y: Symbol|
                    #[trigger] table_lookup(table@, sb as nat, yb as nat, s, y) == lookup_rules(
                        rules@.take(k + 1),
                        s,
                        y,
                    ) by {
                    assert(table_lookup(prev@, sb as nat, yb as nat, s, y) == lookup_rules(rules@.take(k as int), s, y));
                    assert(rules@.take(k + 1).last() == r);
                    if s.spec_index() < sb && y.spec_index() < yb {
                        lemma_flat_index(s.spec_index() as int, y.spec_index() as int, sb as int, yb as int);
                        if s.spec_index() * yb + y.spec_index() == idx {
                            lemma_flat_index_unique(s.spec_index() as int, y.spec_index() as int,
                                r.0.spec_index() as int, r.1.spec_index() as int, yb as int);
                            State::lemma_index_injective(s, r.0);
                            Symbol::lemma_index_injective(y, r.1);
                        } else {
                            assert(!(r.0 == s && r.1 == y));
                        }
                    } else {
                        if r.0 == s && r.1 == y {
                            assert(false);
                        }
                    }
                }
                assert forall|j: int|
                    0 <= j < table@.len() && (#[trigger] table@[j]) is Some implies {
                        let q = table@[j]->0;
                        &&& q.0.spec_index() < sb
                        &&& q.1.spec_index() < yb
                        &&& q.0.spec_index() * yb + q.1.spec_index() == j
                    } by {
                    if j == idx {
                    } else {
                        assert(prev@[j] == table@[j]);
                    }
                }
            }
            k = k + 1;
        }
        assert(rules@.take(k as int) =~= rules@);
        let mut accept_table: Vec<bool> = Vec::new();
        i = 0;
        while i < sb
            invariant
                i <= sb,
                accept_table@.len() == i,
                forall|j: int| 0 <= j < i ==> !(#[trigger] accept_table@[j]),
            decreases sb - i,
        {
            accept_table.push(false);
            i = i + 1;
        }
        k = 0;
        while k < accepting.len()
            invariant
                k <= accepting.len(),
                sb == index_bound(sl),
                sl == Self::state_labels(initial, accepting@, rules@, all_states@),
                accept_table@.len() == sb,
                forall|j: int|
                    0 <= j < sb ==> (#[trigger] accept_table@[j] <==> exists|q: int|
                        0 <= q < k && (#[trigger] accepting@[q]).spec_index() == j),
            decreases accepting.len() - k,
        {
            proof {
                assert(sl[(all_states@.len() + k) as int] == accepting@[k as int]);
                lemma_index_bound(sl, (all_states@.len() + k) as int);
            }
            let ai = accepting[k].index();
            accept_table.set(ai, true);
            proof {
                assert forall|j: int|
                    0 <= j < sb implies (#[trigger] accept_table@[j] <==> exists|q: int|
                        0 <= q < k + 1 && (#[trigger] accepting@[q]).spec_index() == j) by {
                    if j == ai {
                        assert(accepting@[k as int].spec_index() == j);
                    } else {
                        if exists|q: int| 0 <= q < k + 1 && (#[trigger] accepting@[q]).spec_index() == j {
                            let q = choose|q: int| 0 <= q < k + 1 && (#[trigger] accepting@[q]).spec_index() == j;
                            assert(q < k);
                        }
                    }
                }
            }
            k = k + 1;
        }
        let r = SimpleTuringMachineSpec {
            initial,
            blank,
            accepting,
            all_states,
            all_symbols,
            state_bound: sb,
            symbol_bound: yb,
            table,
            accept_table,
        };
        proof {
            assert forall|s: State| #[trigger] r.spec_accepting(s) == r.accepting@.contains(s) by {
                if s.spec_index() < sb {
                    if r.accept_table@[s.spec_index() as int] {
                        let q = choose|q: int| 0 <= q < r.accepting@.len() && (#[trigger] r.accepting@[q]).spec_index() == s.spec_index();
                        State::lemma_index_injective(s, r.accepting@[q]);
                    }
                    if r.accepting@.contains(s) {
                        let q = choose|q: int| 0 <= q < r.accepting@.len() && r.accepting@[q] == s;
                        assert(r.accepting@[q].spec_index() == s.spec_index());
                    }
                } else {
                    if r.accepting@.contains(s) {
                        let q = choose|q: int| 0 <= q < r.accepting@.len() && r.accepting@[q] == s;
                        assert(sl[(all_states@.len() + q) as int] == s);
                        lemma_index_bound(sl, (all_states@.len() + q) as int);
                    }
                }
            }
            assert(sl[(all_states@.len() + accepting@.len()) as int] == initial);
            lemma_index_bound(sl, (all_states@.len() + accepting@.len()) as int);
            assert(yl[all_symbols@.len() as int] == blank);
            lemma_index_bound(yl, all_symbols@.len() as int);
        }
        r
    }
}

impl<State: Label, Symbol: Label> TuringMachineSpec for SimpleTuringMachineSpec<State, Symbol> {
    type State = State;
    type Symbol = Symbol;

    closed spec fn inv(&self) -> bool {
        &&& table_consistent(self.table@, self.state_bound as nat, self.symbol_bound as nat)
        &&& self.accept_table@.len() == self.state_bound
        &&& self.state_bound * self.symbol_bound <= usize::MAX
        &&& self.initial.spec_index() < self.state_bound
        &&& self.blank.spec_index() < self.symbol_bound
    }

    closed spec fn spec_initial(&self) -> State {
        self.initial
    }

    closed spec fn spec_blank(&self) -> Symbol {
        self.blank
    }

    closed spec fn spec_accepting(&self, state: State) -> bool {
        state.spec_index() < self.state_bound && self.accept_table@[state.spec_index() as int]
    }

    closed spec fn spec_transition(&self, state: State, symbol: Symbol) -> Option<(State, Symbol, Dir)> {
        table_lookup(self.table@, self.state_bound as nat, self.symbol_bound as nat, state, symbol)
    }

    closed spec fn spec_states(&self) -> Seq<State> {
        self.all_states@
    }

    closed spec fn spec_symbols(&self) -> Seq<Symbol> {
        self.all_symbols@
    }

    closed spec fn spec_rules(&self) -> Seq<Rule<State, Symbol>> {
        some_entries(self.table@)
    }

    fn initial(&self) -> (r: State) {
        self.initial
    }

    fn blank(&self) -> (r: Symbol) {
        self.blank
    }

    fn is_accepting(&self, state: State) -> (r: bool) {
        let i = state.index();
        i < self.state_bound && self.accept_table[i]
    }

    fn get_transition(&self, state: State, symbol: Symbol) -> (r: Option<(State, Symbol, Dir)>) {
        let si = state.index();
        let yi = symbol.index();
        if si < self.state_bound && yi < self.symbol_bound {
            proof {
                lemma_flat_index(si as int, yi as int, self.state_bound as int, self.symbol_bound as int);
            }
            match self.table[si * self.symbol_bound + yi] {
                Some(r) => Some((r.2, r.3, r.4)),
                None => None,
            }
        } else {
            None
        }
    }

    fn iter_states(&self) -> (r: Vec<State>) {
        copy_vec(&self.all_states)
    }

    fn iter_symbols(&self) -> (r: Vec<Symbol>) {
        copy_vec(&self.all_symbols)
    }

    fn iter_rules(&self) -> (r: Vec<Rule<State, Symbol>>) {
        collect_some_entries(&self.table)
    }

    proof fn lemma_rules(&self) {
        lemma_table_rules(self.table@, self.state_bound as nat, self.symbol_bound as nat);
        lemma_table_rules_sorted(self.table@, self.state_bound as nat, self.symbol_bound as nat);
    }
}

/// A copy of a vector of copyable values.
pub fn copy_vec<T: Copy>(v: &Vec<T>) -> (r: Vec<T>)
    ensures
        r@ == v@,
{
    let mut r: Vec<T> = Vec::new();
    let mut i: usize = 0;
    while i < v.len()
        invariant
            i <= v.len(),
            r@ == v@.take(i as int),
        decreases v.len() - i,
    {
        r.push(v[i]);
        assert(v@.take(i + 1) =~= v@.take(i as int).push(v@[i as int]));
        i = i + 1;
    }
    assert(v@.take(i as int) =~= v@);
    r
}

/// The `Some` entries of a vector, in order.
pub fn collect_some_entries<T: Copy>(v: &Vec<Option<T>>) -> (r: Vec<T>)
    ensures
        r@ == some_entries(v@),
{
    let mut r: Vec<T> = Vec::new();
    let mut i: usize = 0;
    while i < v.len()
        invariant
            i <= v.len(),
            r@ == some_entries(v@.take(i as int)),
        decreases v.len() - i,
    {
        assert(v@.take(i + 1).drop_last() =~= v@.take(i as int));
        match v[i] {
            Some(x) => r.push(x),
            None => {},
        }
        i = i + 1;
    }
    assert(v@.take(i as int) =~= v@);
    r
}

/// Rule `a` comes before rule `b` in the order of their keys: by state
/// index, then by symbol index.
pub open spec fn rule_key_before<S: Label, Y: Label>(a: Rule<S, Y>, b: Rule<S, Y>) -> bool {
    ||| a.0.spec_index() < b.0.spec_index()
    ||| (a.0.spec_index() == b.0.spec_index() && a.1.spec_index() < b.1.spec_index())
}

/// The flat position of a rule's key in a table with `yb` symbols a row.
pub open spec fn flat_key<S: Label, Y: Label>(r: Rule<S, Y>, yb: nat) -> int {
    (r.0.spec_index() * yb + r.1.spec_index()) as int
}

/// Flat positions order keys by state, then by symbol.
proof fn lemma_flat_order(si: int, yi: int, sj: int, yj: int, yb: int)
    requires
        0 <= si,
        0 <= sj,
        0 <= yi < yb,
        0 <= yj < yb,
        si * yb + yi < sj * yb + yj,
    ensures
        si < sj || (si == sj && yi < yj),
{
    if si > sj {
        assert(si * yb + yi > sj * yb + yj) by (nonlinear_arith)
            requires
                si > sj,
                0 <= yi < yb,
                0 <= yj < yb,
        ;
    }
    if si == sj {
        assert(si * yb == sj * yb);
    }
}

/// The entries of a table whose entries sit at their keys' flat positions
/// come out in increasing key order.
proof fn lemma_some_entries_increasing<S: Label, Y: Label>(t: Seq<Option<Rule<S, Y>>>, yb: nat)
    requires
        forall|i: int|
            0 <= i < t.len() && (#[trigger] t[i]) is Some ==> flat_key(t[i]->0, yb) == i,
    ensures
        forall|i: int| 0 <= i < some_entries(t).len() ==> flat_key(#[trigger] some_entries(t)[i], yb) < t.len(),
        forall|i: int, j: int|
            0 <= i < j < some_entries(t).len() ==> flat_key(#[trigger] some_entries(t)[i], yb) < flat_key(
                #[trigger] some_entries(t)[j],
                yb,
            ),
    decreases t.len(),
{
    if t.len() > 0 {
        let d = t.drop_last();
        assert forall|i: int| 0 <= i < d.len() && (#[trigger] d[i]) is Some implies flat_key(d[i]->0, yb) == i by {
            assert(t[i] == d[i]);
        }
        lemma_some_entries_increasing(d, yb);
        let se = some_entries(t);
        let rest = some_entries(d);
        assert(t[t.len() - 1] == t.last());
        assert forall|i: int| 0 <= i < se.len() implies flat_key(#[trigger] se[i], yb) < t.len() by {
            if i < rest.len() {
                assert(se[i] == rest[i]);
            }
        }
        assert forall|i: int, j: int| 0 <= i < j < se.len() implies flat_key(#[trigger] se[i], yb) < flat_key(
            #[trigger] se[j],
            yb,
        ) by {
            assert(se[i] == rest[i]);
            if j < rest.len() {
                assert(se[j] == rest[j]);
            }
        }
    }
}

/// The rules of a consistent flat table are in increasing key order.
pub proof fn lemma_table_rules_sorted<S: Label, Y: Label>(table: Seq<Option<Rule<S, Y>>>, sb: nat, yb: nat)
    requires
        table_consistent(table, sb, yb),
    ensures
        forall|i: int, j: int|
            0 <= i < j < some_entries(table).len() ==> rule_key_before(
                #[trigger] some_entries(table)[i],
                #[trigger] some_entries(table)[j],
            ),
{
    lemma_some_entries_increasing(table, yb);
    assert forall|i: int, j: int| 0 <= i < j < some_entries(table).len() implies rule_key_before(
        #[trigger] some_entries(table)[i],
        #[trigger] some_entries(table)[j],
    ) by {
        let a = some_entries(table)[i];
        let b = some_entries(table)[j];
        lemma_some_entries_sound(table, i);
        lemma_some_entries_sound(table, j);
        let p = choose|p: int| 0 <= p < table.len() && table[p] == Some(a);
        let q = choose|q: int| 0 <= q < table.len() && table[q] == Some(b);
        assert(table[p] is Some && table[q] is Some);
        assert(flat_key(a, yb) < flat_key(b, yb));
        lemma_flat_order(a.0.spec_index() as int, a.1.spec_index() as int, b.0.spec_index() as int,
            b.1.spec_index() as int, yb as int);
    }
}

/// The rules of a consistent flat table agree with its lookup.
pub proof fn lemma_table_rules<S: Label, Y: Label>(
    table: Seq<Option<Rule<S, Y>>>,
    sb: nat,
    yb: nat,
)
    requires
        table_consistent(table, sb, yb),
    ensures
        forall|i: int|
            0 <= i < some_entries(table).len() ==> {
                let r = #[trigger] some_entries(table)[i];
                table_lookup(table, sb, yb, r.0, r.1) == Some((r.2, r.3, r.4))
            },
        forall|s: S, y: Y|
            (#[trigger] table_lookup(table, sb, yb, s, y)) is Some ==> exists|i: int|
                0 <= i < some_entries(table).len() && (#[trigger] some_entries(table)[i]).0 == s
                    && some_entries(table)[i].1 == y,
{
    assert forall|i: int| 0 <= i < some_entries(table).len() implies {
        let r = #[trigger] some_entries(table)[i];
        table_lookup(table, sb, yb, r.0, r.1) == Some((r.2, r.3, r.4))
    } by {
        lemma_some_entries_sound(table, i);
    }
    assert forall|s: S, y: Y|
        (#[trigger] table_lookup(table, sb, yb, s, y)) is Some implies exists|i: int|
            0 <= i < some_entries(table).len() && (#[trigger] some_entries(table)[i]).0 == s
                && some_entries(table)[i].1 == y by {
        let j = (s.spec_index() * yb + y.spec_index()) as int;
        lemma_flat_index(s.spec_index() as int, y.spec_index() as int, sb as int, yb as int);
        let r = table[j]->0;
        lemma_flat_index_unique(s.spec_index() as int, y.spec_index() as int,
            r.0.spec_index() as int, r.1.spec_index() as int, yb as int);
        S::lemma_index_injective(s, r.0);
        Y::lemma_index_injective(y, r.1);
        lemma_some_entries_complete(table, j);
        let k = choose|k: int| 0 <= k < some_entries(table).len() && some_entries(table)[k] == r;
        assert(some_entries(table)[k].0 == s);
    }
}


/// A Turing machine in the middle of a run.
#[derive(Debug, Clone, PartialEq, Eq)]
pub struct RunningTuringMachine<'a, Spec: TuringMachineSpec> {
    pub spec: &'a Spec,
    pub state: Spec::State,
    pub pos: usize,
    pub tape: Vec<Spec::Symbol>,
}

/// The mathematical configuration of a running machine.
pub struct TmConfig<S, Y> {
    pub state: S,
    pub pos: nat,
    pub tape: Seq<Y>,
}

impl<'a, Spec: TuringMachineSpec> RunningTuringMachine<'a, Spec> {
    pub open spec fn config(&self) -> TmConfig<Spec::State, Spec::Symbol> {
        TmConfig { state: self.state, pos: self.pos as nat, tape: self.tape@ }
    }

    /// A machine in its initial state, with an empty tape and the head at 0.
    pub fn new(spec: &'a Spec) -> (r: Self)
        requires
            spec.inv(),
        ensures
            r.spec == spec,
            r.state == spec.spec_initial(),
            r.pos == 0,
            r.tape@ == Seq::<Spec::Symbol>::empty(),
    {
        RunningTuringMachine { spec, state: spec.initial(), pos: 0, tape: Vec::new() }
    }
}

/// Where the head goes: left stops at cell 0.
pub open spec fn move_head(pos: nat, dir: Dir) -> nat {
    match dir {
        Dir::Left => if pos == 0 { 0 } else { (pos - 1) as nat },
        Dir::Right => pos + 1,
    }
}

/// One step of a machine from a configuration whose head is on the tape;
/// `None` when no rule applies and the machine halts.
pub open spec fn step_config<Spec: TuringMachineSpec>(
    spec: &Spec,
    c: TmConfig<Spec::State, Spec::Symbol>,
) -> Option<TmConfig<Spec::State, Spec::Symbol>> {
    match spec.spec_transition(c.state, c.tape[c.pos as int]) {
        Some((ns, nsym, dir)) => Some(
            TmConfig { state: ns, pos: move_head(c.pos, dir), tape: c.tape.update(c.pos as int, nsym) },
        ),
        None => None,
    }
}

/// The tape grown with blanks so that the head is on it.
pub open spec fn pad_tape<Y>(tape: Seq<Y>, pos: nat, blank: Y) -> Seq<Y> {
    if pos < tape.len() {
        tape
    } else {
        tape + Seq::new((pos + 1 - tape.len()) as nat, |i: int| blank)
    }
}

pub open spec fn pad_config<Spec: TuringMachineSpec>(
    spec: &Spec,
    c: TmConfig<Spec::State, Spec::Symbol>,
) -> TmConfig<Spec::State, Spec::Symbol> {
    TmConfig { state: c.state, pos: c.pos, tape: pad_tape(c.tape, c.pos, spec.spec_blank()) }
}

/// Why a run ended by halting, with the number of steps taken.
#[derive(Debug, Clone, Copy, PartialEq, Eq, Structural)]
pub enum HaltReason {
    Accepted { num_steps: usize },
    Rejected { num_steps: usize },
}

/// Why a run ended without halting.
#[derive(Debug, Clone, Copy, PartialEq, Eq, Structural)]
pub enum PartialRunReason {
    StepLimit,
}

/// The status of a machine after one call of `step`.
#[derive(Debug, Clone, Copy, PartialEq, Eq, Structural)]
pub enum RunningTMStatus {
    Accepted,
    Rejected,
    Running,
}

/// How a halted machine ended after `steps` steps.
pub open spec fn halt_reason<Spec: TuringMachineSpec>(spec: &Spec, state: Spec::State, steps: nat) -> HaltReason {
    if spec.spec_accepting(state) {
        HaltReason::Accepted { num_steps: steps as usize }
    } else {
        HaltReason::Rejected { num_steps: steps as usize }
    }
}

/// A run of at most `fuel` more steps, `done` steps having been taken.
pub open spec fn run_config<Spec: TuringMachineSpec>(
    spec: &Spec,
    c: TmConfig<Spec::State, Spec::Symbol>,
    fuel: nat,
    done: nat,
) -> (Result<HaltReason, PartialRunReason>, TmConfig<Spec::State, Spec::Symbol>)
    decreases fuel,
{
    if fuel == 0 {
        (Err(PartialRunReason::StepLimit), c)
    } else {
        let c1 = pad_config(spec, c);
        match step_config(spec, c1) {
            Some(c2) => run_config(spec, c2, (fuel - 1) as nat, done + 1),
            None => (Ok(halt_reason(spec, c1.state, done)), c1),
        }
    }
}

/// Why `run_until_enters_state` stopped without reaching its target.
#[derive(Debug, Clone, Copy, PartialEq, Eq, Structural)]
pub enum RunUntilResult {
    Accepted { num_steps: usize },
    Rejected { num_steps: usize },
    StepLimit,
}

/// A run that stops when a step takes the machine into `target`, `done`
/// steps having been taken, at most `fuel` more to take; where no rule
/// applies the run stops with the halt, whatever the state.
pub open spec fn run_until_config<Spec: TuringMachineSpec>(
    spec: &Spec,
    c: TmConfig<Spec::State, Spec::Symbol>,
    target: Spec::State,
    fuel: nat,
    done: nat,
) -> (Result<usize, RunUntilResult>, TmConfig<Spec::State, Spec::Symbol>)
    decreases fuel,
{
    if fuel == 0 {
        (Err(RunUntilResult::StepLimit), c)
    } else {
        let c1 = pad_config(spec, c);
        match step_config(spec, c1) {
            Some(c2) => if c2.state == target {
                (Ok((done + 1) as usize), c2)
            } else {
                run_until_config(spec, c2, target, (fuel - 1) as nat, done + 1)
            },
            None => if spec.spec_accepting(c1.state) {
                (Err(RunUntilResult::Accepted { num_steps: (done + 1) as usize }), c1)
            } else {
                (Err(RunUntilResult::Rejected { num_steps: (done + 1) as usize }), c1)
            },
        }
    }
}

/// Grows the tape with blanks until the head is on it.
pub fn pad<Spec: TuringMachineSpec>(tm: &mut RunningTuringMachine<Spec>)
    requires
        old(tm).spec.inv(),
    ensures
        final(tm).config() == pad_config(old(tm).spec, old(tm).config()),
        final(tm).spec == old(tm).spec,
        final(tm).pos < final(tm).tape@.len(),
{
    let blank = tm.spec.blank();
    let ghost t0 = tm.tape@;
    while tm.tape.len() <= tm.pos
        invariant
            tm.spec == old(tm).spec,
            tm.pos == old(tm).pos,
            tm.state == old(tm).state,
            blank == tm.spec.spec_blank(),
            t0 == old(tm).tape@,
            t0.len() <= tm.pos ==> tm.tape@ =~= t0 + Seq::new((tm.tape@.len() - t0.len()) as nat, |i: int| blank),
            t0.len() <= tm.pos ==> tm.tape@.len() <= tm.pos + 1,
            t0.len() > tm.pos ==> tm.tape@ == t0,
        decreases tm.pos + 1 - tm.tape@.len(),
    {
        tm.tape.push(blank);
    }
}

/// Takes one step; the head must be on the tape.
pub fn step<Spec: TuringMachineSpec>(machine: &mut RunningTuringMachine<Spec>) -> (r: RunningTMStatus)
    requires
        old(machine).spec.inv(),
        old(machine).pos < old(machine).tape@.len(),
    ensures
        final(machine).spec == old(machine).spec,
        match step_config(old(machine).spec, old(machine).config()) {
            Some(c) => r == RunningTMStatus::Running && final(machine).config() == c,
            None => final(machine).config() == old(machine).config() && r == (
            if old(machine).spec.spec_accepting(old(machine).state) {
                RunningTMStatus::Accepted
            } else {
                RunningTMStatus::Rejected
            }),
        },
{
    let n = machine.tape.len();
    let sym = machine.tape[machine.pos];
    if let Some((ns, nsym, dir)) = machine.spec.get_transition(machine.state, sym) {
        machine.state = ns;
        machine.tape.set(machine.pos, nsym);
        machine.pos = match dir {
            Dir::Left => if machine.pos == 0 { 0 } else { machine.pos - 1 },
            Dir::Right => machine.pos + 1,
        };
        RunningTMStatus::Running
    } else {
        if machine.spec.is_accepting(machine.state) {
            RunningTMStatus::Accepted
        } else {
            RunningTMStatus::Rejected
        }
    }
}

/// Runs a machine for at most `max_steps` steps, growing the tape with
/// blanks as the head reaches its end.
pub fn run_tm<Spec: TuringMachineSpec>(tm: &mut RunningTuringMachine<Spec>, max_steps: usize) -> (r:
    Result<HaltReason, PartialRunReason>)
    requires
        old(tm).spec.inv(),
    ensures
        final(tm).spec == old(tm).spec,
        (r, final(tm).config()) == run_config(old(tm).spec, old(tm).config(), max_steps as nat, 0),
{
    let mut step_count: usize = 0;
    while step_count < max_steps
        invariant
            step_count <= max_steps,
            tm.spec == old(tm).spec,
            tm.spec.inv(),
            run_config(tm.spec, old(tm).config(), max_steps as nat, 0) == run_config(
                tm.spec,
                tm.config(),
                (max_steps - step_count) as nat,
                step_count as nat,
            ),
        decreases max_steps - step_count,
    {
        pad(tm);
        match step(tm) {
            RunningTMStatus::Running => {},
            RunningTMStatus::Accepted => {
                return Ok(HaltReason::Accepted { num_steps: step_count });
            },
            RunningTMStatus::Rejected => {
                return Ok(HaltReason::Rejected { num_steps: step_count });
            },
        }
        step_count = step_count + 1;
    }
    Err(PartialRunReason::StepLimit)
}

/// Runs the machine until it is in `target_state` after a step, taking at
/// least one step.  Returns the number of steps taken, or why it stopped
/// first: it halted, or it took `max_steps` steps.
pub fn run_until_enters_state<Spec: TuringMachineSpec>(
    tm: &mut RunningTuringMachine<Spec>,
    target_state: Spec::State,
    max_steps: usize,
) -> (r: Result<usize, RunUntilResult>)
    requires
        old(tm).spec.inv(),
    ensures
        final(tm).spec == old(tm).spec,
        (r, final(tm).config()) == run_until_config(
            old(tm).spec,
            old(tm).config(),
            target_state,
            max_steps as nat,
            0,
        ),
{
    let mut done: usize = 0;
    while done < max_steps
        invariant
            done <= max_steps,
            tm.spec == old(tm).spec,
            tm.spec.inv(),
            run_until_config(tm.spec, old(tm).config(), target_state, max_steps as nat, 0)
                == run_until_config(
                tm.spec,
                tm.config(),
                target_state,
                (max_steps - done) as nat,
                done as nat,
            ),
        decreases max_steps - done,
    {
        pad(tm);
        let status = step(tm);
        let step_count = done + 1;
        match status {
            RunningTMStatus::Running => {
                if same_label(&tm.state, &target_state) {
                    return Ok(step_count);
                }
            },
            RunningTMStatus::Accepted => {
                return Err(RunUntilResult::Accepted { num_steps: step_count });
            },
            RunningTMStatus::Rejected => {
                return Err(RunUntilResult::Rejected { num_steps: step_count });
            },
        }
        done = step_count;
    }
    Err(RunUntilResult::StepLimit)
}

} // verus!

verus! {

/// A tape grown by `min_size`: the tape as it is when it is that long, else
/// the tape followed by the cells of `cell` up to that length.
pub open spec fn extended<Y>(tape: Seq<Y>, min_size: nat, cell: spec_fn(nat) -> Y) -> Seq<Y> {
    if tape.len() >= min_size {
        tape
    } else {
        tape + Seq::new((min_size - tape.len()) as nat, |k: int| cell((tape.len() + k) as nat))
    }
}

/// Something that stands for the part of a tape beyond what is written,
/// and writes it out on demand.
pub trait TapeExtender<Y> {
    /// The symbol at position `i` of the tape this extender stands for.
    spec fn cell(&self, i: nat) -> Y;

    /// Whether the extender can extend a tape.
    spec fn can_extend(&self) -> bool;

    /// Grows `tape` to at least `min_size` cells with this extender's
    /// symbols; a tape that long already is left as it is.
    fn extend(&mut self, tape: &mut Vec<Y>, min_size: usize)
        requires
            old(self).can_extend(),
        ensures
            final(self).can_extend(),
            forall|i: nat| #[trigger] final(self).cell(i) == old(self).cell(i),
            final(tape)@ == extended(old(tape)@, min_size as nat, |i: nat| old(self).cell(i)),
    ;
}

/// An extender that fills the tape with one symbol; with the blank it grows
/// the tape as a run without an extender does.
pub struct FillExtender<Y> {
    pub fill: Y,
}

impl<Y: Copy> TapeExtender<Y> for FillExtender<Y> {
    open spec fn cell(&self, i: nat) -> Y {
        self.fill
    }

    open spec fn can_extend(&self) -> bool {
        true
    }

    fn extend(&mut self, tape: &mut Vec<Y>, min_size: usize) {
        let ghost t0 = tape@;
        if tape.len() >= min_size {
            return;
        }
        while tape.len() < min_size
            invariant
                t0.len() < min_size,
                t0.len() <= tape@.len() <= min_size,
                tape@ =~= t0 + Seq::new((tape@.len() - t0.len()) as nat, |k: int| self.fill),
            decreases min_size - tape.len(),
        {
            tape.push(self.fill);
        }
        assert(tape@ =~= extended(t0, min_size as nat, |i: nat| self.cell(i)));
    }
}

/// A configuration with its tape grown by an extender's cells until the
/// head is on it.
pub open spec fn extend_config<S, Y>(c: TmConfig<S, Y>, cell: spec_fn(nat) -> Y) -> TmConfig<S, Y> {
    TmConfig { state: c.state, pos: c.pos, tape: extended(c.tape, c.pos + 1, cell) }
}

/// Like `run_config`, but the tape grows with `cell`'s symbols.
pub open spec fn run_extending_config<Spec: TuringMachineSpec>(
    spec: &Spec,
    cell: spec_fn(nat) -> Spec::Symbol,
    c: TmConfig<Spec::State, Spec::Symbol>,
    fuel: nat,
    done: nat,
) -> (Result<HaltReason, PartialRunReason>, TmConfig<Spec::State, Spec::Symbol>)
    decreases fuel,
{
    if fuel == 0 {
        (Err(PartialRunReason::StepLimit), c)
    } else {
        let c1 = extend_config(c, cell);
        match step_config(spec, c1) {
            Some(c2) => run_extending_config(spec, cell, c2, (fuel - 1) as nat, done + 1),
            None => (Ok(halt_reason(spec, c1.state, done)), c1),
        }
    }
}

/// Like `run_until_config`, but the tape grows with `cell`'s symbols.
pub open spec fn run_until_extending_config<Spec: TuringMachineSpec>(
    spec: &Spec,
    cell: spec_fn(nat) -> Spec::Symbol,
    c: TmConfig<Spec::State, Spec::Symbol>,
    target: Spec::State,
    fuel: nat,
    done: nat,
) -> (Result<usize, RunUntilResult>, TmConfig<Spec::State, Spec::Symbol>)
    decreases fuel,
{
    if fuel == 0 {
        (Err(RunUntilResult::StepLimit), c)
    } else {
        let c1 = extend_config(c, cell);
        match step_config(spec, c1) {
            Some(c2) => if c2.state == target {
                (Ok((done + 1) as usize), c2)
            } else {
                run_until_extending_config(spec, cell, c2, target, (fuel - 1) as nat, done + 1)
            },
            None => if spec.spec_accepting(c1.state) {
                (Err(RunUntilResult::Accepted { num_steps: (done + 1) as usize }), c1)
            } else {
                (Err(RunUntilResult::Rejected { num_steps: (done + 1) as usize }), c1)
            },
        }
    }
}

/// Extending a tape with blanks is padding it: a run that grows the tape
/// with the blank is the run without an extender.
pub proof fn lemma_blank_extending_run<Spec: TuringMachineSpec>(
    spec: &Spec,
    c: TmConfig<Spec::State, Spec::Symbol>,
    fuel: nat,
    done: nat,
)
    ensures
        run_extending_config(spec, |i: nat| spec.spec_blank(), c, fuel, done) == run_config(spec, c, fuel, done),
    decreases fuel,
{
    if fuel > 0 {
        let cell = |i: nat| spec.spec_blank();
        let c1 = extend_config(c, cell);
        assert(c1.tape =~= pad_config(spec, c).tape);
        assert(c1 == pad_config(spec, c));
        match step_config(spec, c1) {
            Some(c2) => {
                lemma_blank_extending_run(spec, c2, (fuel - 1) as nat, done + 1);
            },
            None => {},
        }
    }
}

/// Grows the tape with the extender's cells until the head is on it.
fn extend_to_head<Spec: TuringMachineSpec, E: TapeExtender<Spec::Symbol>>(
    tm: &mut RunningTuringMachine<Spec>,
    extender: &mut E,
)
    requires
        old(extender).can_extend(),
        old(tm).pos < usize::MAX,
    ensures
        final(extender).can_extend(),
        forall|i: nat| #[trigger] final(extender).cell(i) == old(extender).cell(i),
        final(tm).spec == old(tm).spec,
        final(tm).config() == extend_config(old(tm).config(), |i: nat| old(extender).cell(i)),
        final(tm).pos < final(tm).tape@.len(),
{
    if tm.pos >= tm.tape.len() {
        let min_size = tm.pos + 1;
        extender.extend(&mut tm.tape, min_size);
    }
}

/// Runs a machine for at most `max_steps` steps, growing the tape with the
/// extender's cells as the head reaches its end.
pub fn run_tm_extending<Spec: TuringMachineSpec, E: TapeExtender<Spec::Symbol>>(
    tm: &mut RunningTuringMachine<Spec>,
    max_steps: usize,
    extender: &mut E,
) -> (r: Result<HaltReason, PartialRunReason>)
    requires
        old(tm).spec.inv(),
        old(extender).can_extend(),
        old(tm).pos + max_steps < usize::MAX,
    ensures
        final(tm).spec == old(tm).spec,
        (r, final(tm).config()) == run_extending_config(
            old(tm).spec,
            |i: nat| old(extender).cell(i),
            old(tm).config(),
            max_steps as nat,
            0,
        ),
{
    let ghost cell = |i: nat| extender.cell(i);
    let mut step_count: usize = 0;
    while step_count < max_steps
        invariant
            step_count <= max_steps,
            tm.spec == old(tm).spec,
            tm.spec.inv(),
            extender.can_extend(),
            forall|i: nat| #[trigger] extender.cell(i) == cell(i),
            cell == (|i: nat| old(extender).cell(i)),
            old(tm).pos + max_steps < usize::MAX,
            tm.pos + (max_steps - step_count) <= old(tm).pos + max_steps,
            run_extending_config(tm.spec, cell, old(tm).config(), max_steps as nat, 0) == run_extending_config(
                tm.spec,
                cell,
                tm.config(),
                (max_steps - step_count) as nat,
                step_count as nat,
            ),
        decreases max_steps - step_count,
    {
        let ghost c_before = tm.config();
        proof {
            assert((|i: nat| extender.cell(i)) =~= cell);
        }
        extend_to_head(tm, extender);
        assert(tm.config() == extend_config(c_before, cell));
        match step(tm) {
            RunningTMStatus::Running => {},
            RunningTMStatus::Accepted => {
                return Ok(HaltReason::Accepted { num_steps: step_count });
            },
            RunningTMStatus::Rejected => {
                return Ok(HaltReason::Rejected { num_steps: step_count });
            },
        }
        step_count = step_count + 1;
    }
    Err(PartialRunReason::StepLimit)
}

/// Runs the machine until a step takes it into `target_state`, growing the
/// tape with the extender's cells as the head reaches its end; takes at
/// least one step, and reports a halt or the step limit where it comes
/// first.
pub fn run_until_enters_state_extending<Spec: TuringMachineSpec, E: TapeExtender<Spec::Symbol>>(
    tm: &mut RunningTuringMachine<Spec>,
    target_state: Spec::State,
    max_steps: usize,
    extender: &mut E,
) -> (r: Result<usize, RunUntilResult>)
    requires
        old(tm).spec.inv(),
        old(extender).can_extend(),
        old(tm).pos + max_steps < usize::MAX,
    ensures
        final(tm).spec == old(tm).spec,
        (r, final(tm).config()) == run_until_extending_config(
            old(tm).spec,
            |i: nat| old(extender).cell(i),
            old(tm).config(),
            target_state,
            max_steps as nat,
            0,
        ),
{
    let ghost cell = |i: nat| extender.cell(i);
    let mut done: usize = 0;
    while done < max_steps
        invariant
            done <= max_steps,
            tm.spec == old(tm).spec,
            tm.spec.inv(),
            extender.can_extend(),
            forall|i: nat| #[trigger] extender.cell(i) == cell(i),
            cell == (|i: nat| old(extender).cell(i)),
            old(tm).pos + max_steps < usize::MAX,
            tm.pos + (max_steps - done) <= old(tm).pos + max_steps,
            run_until_extending_config(tm.spec, cell, old(tm).config(), target_state, max_steps as nat, 0)
                == run_until_extending_config(
                tm.spec,
                cell,
                tm.config(),
                target_state,
                (max_steps - done) as nat,
                done as nat,
            ),
        decreases max_steps - done,
    {
        let ghost c_before = tm.config();
        proof {
            assert((|i: nat| extender.cell(i)) =~= cell);
        }
        extend_to_head(tm, extender);
        assert(tm.config() == extend_config(c_before, cell));
        let status = step(tm);
        let step_count = done + 1;
        match status {
            RunningTMStatus::Running => {
                if same_label(&tm.state, &target_state) {
                    return Ok(step_count);
                }
            },
            RunningTMStatus::Accepted => {
                return Err(RunUntilResult::Accepted { num_steps: step_count });
            },
            RunningTMStatus::Rejected => {
                return Err(RunUntilResult::Rejected { num_steps: step_count });
            },
        }
        done = step_count;
    }
    Err(RunUntilResult::StepLimit)
}

} // verus!
