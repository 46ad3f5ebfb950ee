//! The layout of a guest machine on the universal machine's tape:
//!
//! `$ ACCEPT # BLANK # RULES # STATE # TAPE`
//!
//! States and symbols are written as fixed-width binary codes: the code of
//! a state is its position in the guest's state list, and likewise for
//! symbols.  ACCEPT lists the codes of the accepting states separated by
//! `;`.  RULES lists the rules separated by `;`, each one
//! `. state | symbol | new state | new symbol | dir`, or, for a group of
//! rules that keep state and symbol and move the same way,
//! `. state , symbol , symbol ... | dir`.  TAPE lists the cells, each one
//! preceded by `,`, except the head's, which is preceded by `^`.
use vstd::prelude::*;

use crate::binary::{
    binary, bits_symbols, bitstring_to_symbols, lemma_binary_value, lemma_num_bits,
    spec_num_bits, to_binary, two_pow, num_bits, all_bits, symbols_value, from_binary_at,
    lemma_two_pow_monotone, code_below,
};
use crate::compiled::{find_position, position};
use crate::tm::{closed, same_label, Dir, Label, Rule, RunningTuringMachine, TuringMachineSpec, copy_vec};
use crate::json_export::push_char;
use crate::utm_symbols::Symbol;

verus! {

/// A rule of the encoded guest program, over state and symbol codes.
#[derive(Debug, Clone, PartialEq, Eq)]
pub enum GuestRule<GState, GSymbol> {
    /// `. state | sym | new_state | new_sym | dir`
    Single { state: GState, sym: GSymbol, new_state: GState, new_sym: GSymbol, dir: Dir },
    /// `. state , sym , sym ... | dir`: every listed symbol is kept, and so
    /// is the state; the head moves.
    NoopGroup { state: GState, syms: Vec<GSymbol>, dir: Dir },
}

/// The mathematical value of a rule over codes.
pub enum RuleView {
    Single { state: nat, sym: nat, new_state: nat, new_sym: nat, dir: Dir },
    NoopGroup { state: nat, syms: Seq<nat>, dir: Dir },
}

pub open spec fn rule_view(r: GuestRule<usize, usize>) -> RuleView {
    match r {
        GuestRule::Single { state, sym, new_state, new_sym, dir } => RuleView::Single {
            state: state as nat,
            sym: sym as nat,
            new_state: new_state as nat,
            new_sym: new_sym as nat,
            dir,
        },
        GuestRule::NoopGroup { state, syms, dir } => RuleView::NoopGroup {
            state: state as nat,
            syms: syms@.map_values(|y: usize| y as nat),
            dir,
        },
    }
}

pub open spec fn rules_view(rules: Seq<GuestRule<usize, usize>>) -> Seq<RuleView> {
    rules.map_values(|r: GuestRule<usize, usize>| rule_view(r))
}

/// The tape symbol of a direction.
pub open spec fn dir_symbol(d: Dir) -> Symbol {
    match d {
        Dir::Left => Symbol::L,
        Dir::Right => Symbol::R,
    }
}

/// The tape symbols of a code.
pub open spec fn code_symbols(code: nat, width: nat) -> Seq<Symbol> {
    bits_symbols(binary(code, width))
}

/// `, code , code ...` for the symbols of a noop group.
pub open spec fn alternatives(syms: Seq<nat>, width: nat) -> Seq<Symbol>
    decreases syms.len(),
{
    if syms.len() == 0 {
        Seq::empty()
    } else {
        alternatives(syms.drop_last(), width) + seq![Symbol::Comma] + code_symbols(syms.last(), width)
    }
}

/// The tape symbols of one rule.
pub open spec fn serialize_view(r: RuleView, state_bits: nat, symbol_bits: nat) -> Seq<Symbol> {
    match r {
        RuleView::Single { state, sym, new_state, new_sym, dir } => seq![Symbol::Dot] + code_symbols(
            state,
            state_bits,
        ) + seq![Symbol::Pipe] + code_symbols(sym, symbol_bits) + seq![Symbol::Pipe]
            + code_symbols(new_state, state_bits) + seq![Symbol::Pipe] + code_symbols(
            new_sym,
            symbol_bits,
        ) + seq![Symbol::Pipe, dir_symbol(dir)],
        RuleView::NoopGroup { state, syms, dir } => seq![Symbol::Dot] + code_symbols(
            state,
            state_bits,
        ) + alternatives(syms, symbol_bits) + seq![Symbol::Pipe, dir_symbol(dir)],
    }
}

/// The rules section: the rules separated by `;`.
pub open spec fn serialize_rules_view(rules: Seq<RuleView>, state_bits: nat, symbol_bits: nat) -> Seq<Symbol>
    decreases rules.len(),
{
    if rules.len() == 0 {
        Seq::empty()
    } else if rules.len() == 1 {
        serialize_view(rules[0], state_bits, symbol_bits)
    } else {
        serialize_rules_view(rules.drop_last(), state_bits, symbol_bits) + seq![Symbol::Semi]
            + serialize_view(rules.last(), state_bits, symbol_bits)
    }
}

/// Every code of a rule fits its width.
pub open spec fn rule_fits(r: RuleView, state_bits: nat, symbol_bits: nat) -> bool {
    match r {
        RuleView::Single { state, sym, new_state, new_sym, dir } => {
            &&& state < two_pow(state_bits)
            &&& sym < two_pow(symbol_bits)
            &&& new_state < two_pow(state_bits)
            &&& new_sym < two_pow(symbol_bits)
        },
        RuleView::NoopGroup { state, syms, dir } => {
            &&& state < two_pow(state_bits)
            &&& codes_fit(syms, symbol_bits)
        },
    }
}

/// Every code of a list fits the width.
pub open spec fn codes_fit(codes: Seq<nat>, width: nat) -> bool {
    forall|k: int| 0 <= k < codes.len() ==> #[trigger] codes[k] < two_pow(width)
}

/// Writes the symbols of a code.
fn push_code(out: &mut Vec<Symbol>, code: usize, width: usize)
    requires
        code < two_pow(width as nat),
    ensures
        final(out)@ == old(out)@ + code_symbols(code as nat, width as nat),
{
    let bits = to_binary(code, width);
    let mut syms = bitstring_to_symbols(&bits);
    out.append(&mut syms);
}

fn dir_to_symbol(d: Dir) -> (r: Symbol)
    ensures
        r == dir_symbol(d),
{
    match d {
        Dir::Left => Symbol::L,
        Dir::Right => Symbol::R,
    }
}

impl GuestRule<usize, usize> {
    /// The tape symbols of this rule, with codes of the given widths.
    pub fn serialize(&self, n_state_bits: usize, n_symbol_bits: usize) -> (r: Vec<Symbol>)
        requires
            rule_fits(rule_view(*self), n_state_bits as nat, n_symbol_bits as nat),
        ensures
            r@ == serialize_view(rule_view(*self), n_state_bits as nat, n_symbol_bits as nat),
    {
        let mut out: Vec<Symbol> = Vec::new();
        assert(rule_fits(rule_view(*self), n_state_bits as nat, n_symbol_bits as nat));
        match self {
            GuestRule::Single { state, sym, new_state, new_sym, dir } => {
                out.push(Symbol::Dot);
                push_code(&mut out, *state, n_state_bits);
                out.push(Symbol::Pipe);
                push_code(&mut out, *sym, n_symbol_bits);
                out.push(Symbol::Pipe);
                push_code(&mut out, *new_state, n_state_bits);
                out.push(Symbol::Pipe);
                push_code(&mut out, *new_sym, n_symbol_bits);
                out.push(Symbol::Pipe);
                out.push(dir_to_symbol(*dir));
                assert(out@ =~= serialize_view(rule_view(*self), n_state_bits as nat, n_symbol_bits as nat));
            },
            GuestRule::NoopGroup { state, syms, dir } => {
                out.push(Symbol::Dot);
                push_code(&mut out, *state, n_state_bits);
                let ghost start = out@;
                let ghost view_syms = syms@.map_values(|y: usize| y as nat);
                assert(rule_view(*self) == RuleView::NoopGroup { state: *state as nat, syms: view_syms, dir: *dir });
                assert(rule_fits(RuleView::NoopGroup { state: *state as nat, syms: view_syms, dir: *dir }, n_state_bits as nat, n_symbol_bits as nat));
                let mut k: usize = 0;
                while k < syms.len()
                    invariant
                        k <= syms@.len(),
                        view_syms == syms@.map_values(|y: usize| y as nat),
                        codes_fit(view_syms, n_symbol_bits as nat),
                        out@ == start + alternatives(view_syms.take(k as int), n_symbol_bits as nat),
                    decreases syms.len() - k,
                {
                    assert(view_syms[k as int] == syms@[k as int] as nat);
                    out.push(Symbol::Comma);
                    push_code(&mut out, syms[k], n_symbol_bits);
                    assert(view_syms.take(k + 1).drop_last() =~= view_syms.take(k as int));
                    k = k + 1;
                }
                assert(view_syms.take(k as int) =~= view_syms);
                out.push(Symbol::Pipe);
                out.push(dir_to_symbol(*dir));
                assert(out@ =~= serialize_view(rule_view(*self), n_state_bits as nat, n_symbol_bits as nat));
            },
        }
        out
    }
}

/// The rules section for a list of rules, with codes of the given widths.
pub fn serialize_rules(
    rules: &Vec<GuestRule<usize, usize>>,
    n_state_bits: usize,
    n_symbol_bits: usize,
) -> (r: Vec<Symbol>)
    requires
        forall|i: int| 0 <= i < rules@.len() ==> rule_fits(#[trigger] rule_view(rules@[i]), n_state_bits as nat, n_symbol_bits as nat),
    ensures
        r@ == serialize_rules_view(rules_view(rules@), n_state_bits as nat, n_symbol_bits as nat),
{
    let mut tape: Vec<Symbol> = Vec::new();
    let ghost rv = rules_view(rules@);
    let mut i: usize = 0;
    while i < rules.len()
        invariant
            i <= rules@.len(),
            rv == rules_view(rules@),
            forall|j: int| 0 <= j < rules@.len() ==> rule_fits(#[trigger] rule_view(rules@[j]), n_state_bits as nat, n_symbol_bits as nat),
            tape@ == serialize_rules_view(rv.take(i as int), n_state_bits as nat, n_symbol_bits as nat),
        decreases rules.len() - i,
    {
        assert(rv.take(i + 1).drop_last() =~= rv.take(i as int));
        assert(rv.take(i + 1).last() == rule_view(rules@[i as int]));
        if i > 0 {
            tape.push(Symbol::Semi);
        } else {
            assert(rv.take(1)[0] == rv.take(1).last());
        }
        let mut s = rules[i].serialize(n_state_bits, n_symbol_bits);
        tape.append(&mut s);
        i = i + 1;
    }
    assert(rv.take(i as int) =~= rv);
    tape
}


/// A rule that keeps the state and the symbol.
pub open spec fn is_noop<S, Y>(r: Rule<S, Y>) -> bool {
    r.2 == r.0 && r.3 == r.1
}

/// `q` is a noop rule in the group of `r`: same state, same direction.
pub open spec fn same_group<S, Y>(r: Rule<S, Y>, q: Rule<S, Y>) -> bool {
    is_noop(q) && q.0 == r.0 && q.4 == r.4
}

/// A later rule of the list belongs to the group of rule `i`.
pub open spec fn later_in_group<S, Y>(rules: Seq<Rule<S, Y>>, i: int) -> bool {
    exists|j: int| i < j < rules.len() && same_group(rules[i], #[trigger] rules[j])
}

/// The symbol codes of the rules of a list in the group of `r`, in order.
pub open spec fn group_codes<S, Y>(rules: Seq<Rule<S, Y>>, r: Rule<S, Y>, symbols: Seq<Y>) -> Seq<nat>
    decreases rules.len(),
{
    if rules.len() == 0 {
        Seq::empty()
    } else {
        let rest = group_codes(rules.drop_last(), r, symbols);
        if same_group(r, rules.last()) {
            rest.push(position(symbols, rules.last().1) as nat)
        } else {
            rest
        }
    }
}

/// What rule `i` contributes: a single rule for a rule that changes the
/// state or the symbol; for a noop rule, its whole group, in the place of
/// the group's last rule.
pub open spec fn grouped_entry<S, Y>(
    rules: Seq<Rule<S, Y>>,
    i: int,
    states: Seq<S>,
    symbols: Seq<Y>,
) -> Seq<RuleView> {
    let r = rules[i];
    if !is_noop(r) {
        seq![
            RuleView::Single {
                state: position(states, r.0) as nat,
                sym: position(symbols, r.1) as nat,
                new_state: position(states, r.2) as nat,
                new_sym: position(symbols, r.3) as nat,
                dir: r.4,
            },
        ]
    } else if later_in_group(rules, i) {
        Seq::empty()
    } else {
        seq![
            RuleView::NoopGroup {
                state: position(states, r.0) as nat,
                syms: group_codes(rules, r, symbols),
                dir: r.4,
            },
        ]
    }
}

pub open spec fn grouped_upto<S, Y>(
    rules: Seq<Rule<S, Y>>,
    k: int,
    states: Seq<S>,
    symbols: Seq<Y>,
) -> Seq<RuleView>
    decreases k,
{
    if k <= 0 {
        Seq::empty()
    } else {
        grouped_upto(rules, k - 1, states, symbols) + grouped_entry(rules, k - 1, states, symbols)
    }
}

/// The rules of a list over codes, noop rules of one state and direction
/// gathered into one group.
pub open spec fn grouped<S, Y>(rules: Seq<Rule<S, Y>>, states: Seq<S>, symbols: Seq<Y>) -> Seq<RuleView> {
    grouped_upto(rules, rules.len() as int, states, symbols)
}

/// The rules of a list name only listed states and symbols.
pub open spec fn rules_within<S, Y>(rules: Seq<Rule<S, Y>>, states: Seq<S>, symbols: Seq<Y>) -> bool {
    forall|i: int|
        0 <= i < rules.len() ==> {
            let r = #[trigger] rules[i];
            &&& states.contains(r.0)
            &&& symbols.contains(r.1)
            &&& states.contains(r.2)
            &&& symbols.contains(r.3)
        }
}

/// Whether two rules are in one noop group.
fn in_same_group<S: Label, Y: Label>(r: &Rule<S, Y>, q: &Rule<S, Y>) -> (b: bool)
    ensures
        b == same_group(*r, *q),
{
    same_label(&q.2, &q.0) && same_label(&q.3, &q.1) && same_label(&q.0, &r.0) && q.4 == r.4
}

/// Gathers the noop rules of each state and direction into one group, in
/// the place of the group's last rule; the other rules stay single.  Codes
/// are positions in `states` and `symbols`.
pub fn group_rules<S: Label, Y: Label>(
    rules: &Vec<Rule<S, Y>>,
    states: &Vec<S>,
    symbols: &Vec<Y>,
) -> (r: Vec<GuestRule<usize, usize>>)
    requires
        states@.no_duplicates(),
        symbols@.no_duplicates(),
        rules_within(rules@, states@, symbols@),
    ensures
        rules_view(r@) == grouped(rules@, states@, symbols@),
{
    let mut result: Vec<GuestRule<usize, usize>> = Vec::new();
    let mut i: usize = 0;
    while i < rules.len()
        invariant
            i <= rules@.len(),
            states@.no_duplicates(),
            symbols@.no_duplicates(),
            rules_within(rules@, states@, symbols@),
            rules_view(result@) == grouped_upto(rules@, i as int, states@, symbols@),
        decreases rules.len() - i,
    {
        let r = rules[i];
        assert(rules@[i as int] == r);
        let ghost prev = result@;
        if !(same_label(&r.2, &r.0) && same_label(&r.3, &r.1)) {
            let g = GuestRule::Single {
                state: find_position(states, &r.0),
                sym: find_position(symbols, &r.1),
                new_state: find_position(states, &r.2),
                new_sym: find_position(symbols, &r.3),
                dir: r.4,
            };
            result.push(g);
            assert(rules_view(result@) =~= rules_view(prev).push(rule_view(g)));
            assert(grouped_entry(rules@, i as int, states@, symbols@) =~= seq![rule_view(g)]);
        } else {
            let mut later = false;
            let mut j: usize = i + 1;
            while j < rules.len() && !later
                invariant
                    i < j <= rules@.len(),
                    r == rules@[i as int],
                    later ==> (i < j - 1 && same_group(r, rules@[j - 1])),
                    !later ==> forall|q: int| i < q < j ==> !same_group(r, #[trigger] rules@[q]),
                decreases rules.len() - j,
            {
                later = in_same_group(&r, &rules[j]);
                j = j + 1;
            }
            if later {
                assert(later_in_group(rules@, i as int)) by {
                    assert(same_group(r, rules@[j - 1]));
                }
                assert(grouped_entry(rules@, i as int, states@, symbols@) =~= Seq::empty());
                assert(rules_view(result@) =~= rules_view(prev));
            } else {
                assert(!later_in_group(rules@, i as int));
                let mut codes: Vec<usize> = Vec::new();
                let mut q: usize = 0;
                while q < rules.len()
                    invariant
                        q <= rules@.len(),
                        symbols@.no_duplicates(),
                        rules_within(rules@, states@, symbols@),
                        codes@.map_values(|y: usize| y as nat) == group_codes(rules@.take(q as int), r, symbols@),
                    decreases rules.len() - q,
                {
                    assert(rules@.take(q + 1).drop_last() =~= rules@.take(q as int));
                    assert(rules@.take(q + 1).last() == rules@[q as int]);
                    if in_same_group(&r, &rules[q]) {
                        let ghost before = codes@;
                        let c = find_position(symbols, &rules[q].1);
                        codes.push(c);
                        assert(codes@.map_values(|y: usize| y as nat) =~= before.map_values(|y: usize| y as nat).push(c as nat));
                    }
                    q = q + 1;
                }
                assert(rules@.take(q as int) =~= rules@);
                let g = GuestRule::NoopGroup { state: find_position(states, &r.0), syms: codes, dir: r.4 };
                result.push(g);
                assert(rules_view(result@) =~= rules_view(prev).push(rule_view(g)));
                assert(grouped_entry(rules@, i as int, states@, symbols@) =~= seq![rule_view(g)]);
            }
        }
        assert(grouped_upto(rules@, i + 1, states@, symbols@) == grouped_upto(rules@, i as int, states@, symbols@) + grouped_entry(rules@, i as int, states@, symbols@));
        i = i + 1;
    }
    result
}


/// Codes separated by `sep`.
pub open spec fn join_codes(codes: Seq<nat>, width: nat, sep: Symbol) -> Seq<Symbol>
    decreases codes.len(),
{
    if codes.len() == 0 {
        Seq::empty()
    } else if codes.len() == 1 {
        code_symbols(codes[0], width)
    } else {
        join_codes(codes.drop_last(), width, sep) + seq![sep] + code_symbols(codes.last(), width)
    }
}

/// The codes (positions) of the accepting states among the first `k`.
pub open spec fn accepting_codes<Spec: TuringMachineSpec>(g: &Spec, states: Seq<Spec::State>, k: int) -> Seq<nat>
    decreases k,
{
    if k <= 0 {
        Seq::empty()
    } else {
        let rest = accepting_codes(g, states, k - 1);
        if g.spec_accepting(states[k - 1]) {
            rest.push((k - 1) as nat)
        } else {
            rest
        }
    }
}

/// `, code , code ...`: one comma and one code per cell.
pub open spec fn cells_section(codes: Seq<nat>, width: nat) -> Seq<Symbol>
    decreases codes.len(),
{
    if codes.len() == 0 {
        Seq::empty()
    } else {
        cells_section(codes.drop_last(), width) + seq![Symbol::Comma] + code_symbols(codes.last(), width)
    }
}

/// The cells that encoding writes: the tape, or one blank for an empty tape.
pub open spec fn written_cells<Y>(tape: Seq<Y>, blank: Y) -> Seq<Y> {
    if tape.len() == 0 {
        seq![blank]
    } else {
        tape
    }
}

/// The codes of some symbols.
pub open spec fn symbol_codes<Y>(symbols: Seq<Y>, cells: Seq<Y>) -> Seq<nat> {
    cells.map_values(|y: Y| position(symbols, y) as nat)
}

/// Everything that encoding writes before the tape section, for a guest
/// in state `state` and a given list of rules:
/// `$ ACCEPT # BLANK # RULES # STATE #`.
pub open spec fn header_spec<Spec: TuringMachineSpec>(g: &Spec, rules: Seq<RuleView>, state: Spec::State) -> Seq<Symbol> {
    let ss = g.spec_states();
    let ys = g.spec_symbols();
    let sb = spec_num_bits(ss.len());
    let yb = spec_num_bits(ys.len());
    seq![Symbol::Dollar] + join_codes(accepting_codes(g, ss, ss.len() as int), sb, Symbol::Semi)
        + seq![Symbol::Hash] + code_symbols(position(ys, g.spec_blank()) as nat, yb) + seq![Symbol::Hash]
        + serialize_rules_view(rules, sb, yb) + seq![Symbol::Hash] + code_symbols(position(ss, state) as nat, sb)
        + seq![Symbol::Hash]
}

/// The tape section: one cell per symbol of the tape (one blank for an
/// empty tape), the head's cell, the first, marked with `^`.
pub open spec fn tape_section_spec<Spec: TuringMachineSpec>(g: &Spec, tape: Seq<Spec::Symbol>) -> Seq<Symbol> {
    let ys = g.spec_symbols();
    let cells = symbol_codes(ys, written_cells(tape, g.spec_blank()));
    cells_section(cells, spec_num_bits(ys.len())).update(0, Symbol::Caret)
}

/// The whole encoded tape of a guest in state `state` with tape `tape`
/// and its head on the first cell, for a given list of rules.
pub open spec fn encode_spec<Spec: TuringMachineSpec>(
    g: &Spec,
    rules: Seq<RuleView>,
    state: Spec::State,
    tape: Seq<Spec::Symbol>,
) -> Seq<Symbol> {
    header_spec(g, rules, state) + tape_section_spec(g, tape)
}

/// Rule lists and code widths that the encoding of a guest may use.
pub struct MyUtmSpecOptimizationHints<'a, Guest: TuringMachineSpec> {
    pub guest: &'a Guest,
    /// The guest's rules over codes, in the order they go on the tape.
    pub rules: Vec<GuestRule<usize, usize>>,
    /// The guest's states; the code of a state is its position here.
    pub state_encodings: Vec<Guest::State>,
    /// The guest's symbols; the code of a symbol is its position here.
    pub symbol_encodings: Vec<Guest::Symbol>,
    /// How often each transition was taken, by state and symbol.
    pub transition_stats: Vec<(Guest::State, Guest::Symbol, usize)>,
}

impl<'a, Guest: TuringMachineSpec> MyUtmSpecOptimizationHints<'a, Guest> {
    pub open spec fn n_state_bits(&self) -> nat {
        spec_num_bits(self.state_encodings@.len())
    }

    pub open spec fn n_symbol_bits(&self) -> nat {
        spec_num_bits(self.symbol_encodings@.len())
    }

    /// The hints fit their guest: their lists are the guest's, and every
    /// rule names codes of the guest's states and symbols.
    pub open spec fn wf(&self) -> bool {
        &&& self.guest.inv()
        &&& closed(self.guest)
        &&& self.state_encodings@ == self.guest.spec_states()
        &&& self.symbol_encodings@ == self.guest.spec_symbols()
        &&& forall|i: int|
            0 <= i < self.rules@.len() ==> rule_fits(
                #[trigger] rule_view(self.rules@[i]),
                self.n_state_bits(),
                self.n_symbol_bits(),
            )
    }

    /// The rules are the guest's rules, grouped, in the guest's order.
    pub open spec fn rules_in_order(&self) -> bool {
        rules_view(self.rules@) == grouped(self.guest.spec_rules(), self.guest.spec_states(), self.guest.spec_symbols())
    }

    /// The code of a state of the guest.
    pub fn state_code(&self, state: &Guest::State) -> (r: usize)
        requires
            self.wf(),
            self.guest.spec_states().contains(*state),
        ensures
            r as int == position(self.guest.spec_states(), *state),
    {
        find_position(&self.state_encodings, state)
    }

    /// The code of a symbol of the guest.
    pub fn symbol_code(&self, symbol: &Guest::Symbol) -> (r: usize)
        requires
            self.wf(),
            self.guest.spec_symbols().contains(*symbol),
        ensures
            r as int == position(self.guest.spec_symbols(), *symbol),
    {
        find_position(&self.symbol_encodings, symbol)
    }

    /// Hints with no statistics: the rules go on the tape in the guest's
    /// order.
    pub fn guess(guest: &'a Guest) -> (r: Self)
        requires
            guest.inv(),
            closed(guest),
        ensures
            r.guest == guest,
            r.wf(),
            r.rules_in_order(),
            r.transition_stats@.len() == 0,
    {
        let states = guest.iter_states();
        let symbols = guest.iter_symbols();
        let rules = guest.iter_rules();
        let grouped_rules = group_rules(&rules, &states, &symbols);
        let r = MyUtmSpecOptimizationHints {
            guest,
            rules: grouped_rules,
            state_encodings: states,
            symbol_encodings: symbols,
            transition_stats: Vec::new(),
        };
        proof {
            lemma_grouped_fits(guest.spec_rules(), guest.spec_states(), guest.spec_symbols());
            assert forall|i: int| 0 <= i < r.rules@.len() implies rule_fits(
                #[trigger] rule_view(r.rules@[i]),
                r.n_state_bits(),
                r.n_symbol_bits(),
            ) by {
                assert(rules_view(r.rules@)[i] == rule_view(r.rules@[i]));
            }
        }
        r
    }
}

/// Every rule of a grouped list fits the code widths of the lists.
pub proof fn lemma_grouped_fits<S, Y>(rules: Seq<Rule<S, Y>>, states: Seq<S>, symbols: Seq<Y>)
    requires
        rules_within(rules, states, symbols),
    ensures
        forall|i: int|
            0 <= i < grouped(rules, states, symbols).len() ==> rule_fits(
                #[trigger] grouped(rules, states, symbols)[i],
                spec_num_bits(states.len()),
                spec_num_bits(symbols.len()),
            ),
{
    lemma_num_bits(states.len());
    lemma_num_bits(symbols.len());
    lemma_grouped_upto_fits(rules, rules.len() as int, states, symbols);
}

proof fn lemma_position_in<T>(s: Seq<T>, x: T)
    requires
        s.contains(x),
    ensures
        0 <= position(s, x) < s.len(),
        s[position(s, x)] == x,
{
}

proof fn lemma_group_codes_fit<S, Y>(rules: Seq<Rule<S, Y>>, r: Rule<S, Y>, symbols: Seq<Y>)
    requires
        forall|i: int| 0 <= i < rules.len() ==> symbols.contains(#[trigger] rules[i].1),
        symbols.len() <= two_pow(spec_num_bits(symbols.len())),
    ensures
        codes_fit(group_codes(rules, r, symbols), spec_num_bits(symbols.len())),
    decreases rules.len(),
{
    if rules.len() > 0 {
        assert forall|i: int| 0 <= i < rules.drop_last().len() implies symbols.contains(#[trigger] rules.drop_last()[i].1) by {
            assert(rules.drop_last()[i] == rules[i]);
        }
        lemma_group_codes_fit(rules.drop_last(), r, symbols);
        assert(symbols.contains(rules[rules.len() - 1].1));
        lemma_position_in(symbols, rules.last().1);
    }
}

proof fn lemma_grouped_upto_fits<S, Y>(rules: Seq<Rule<S, Y>>, k: int, states: Seq<S>, symbols: Seq<Y>)
    requires
        rules_within(rules, states, symbols),
        k <= rules.len(),
        states.len() <= two_pow(spec_num_bits(states.len())),
        symbols.len() <= two_pow(spec_num_bits(symbols.len())),
    ensures
        forall|i: int|
            0 <= i < grouped_upto(rules, k, states, symbols).len() ==> rule_fits(
                #[trigger] grouped_upto(rules, k, states, symbols)[i],
                spec_num_bits(states.len()),
                spec_num_bits(symbols.len()),
            ),
    decreases k,
{
    if k > 0 {
        lemma_grouped_upto_fits(rules, k - 1, states, symbols);
        let r = rules[k - 1];
        lemma_position_in(states, r.0);
        lemma_position_in(symbols, r.1);
        lemma_position_in(states, r.2);
        lemma_position_in(symbols, r.3);
        assert forall|i: int| 0 <= i < rules.len() implies symbols.contains(#[trigger] rules[i].1) by {
            assert(symbols.contains(rules[i].1));
        }
        lemma_group_codes_fit(rules, r, symbols);
        let a = grouped_upto(rules, k - 1, states, symbols);
        let b = grouped_entry(rules, k - 1, states, symbols);
        assert forall|i: int| 0 <= i < (a + b).len() implies rule_fits(
            #[trigger] (a + b)[i],
            spec_num_bits(states.len()),
            spec_num_bits(symbols.len()),
        ) by {
            if i < a.len() {
                assert((a + b)[i] == a[i]);
            } else {
                assert((a + b)[i] == b[i - a.len()]);
            }
        }
    }
}


/// The state and every tape symbol of a running guest are listed.
pub open spec fn tm_within<S, Y>(states: Seq<S>, symbols: Seq<Y>, state: S, tape: Seq<Y>) -> bool {
    &&& states.contains(state)
    &&& forall|k: int| 0 <= k < tape.len() ==> symbols.contains(#[trigger] tape[k])
}

impl<'a, Guest: TuringMachineSpec> MyUtmSpecOptimizationHints<'a, Guest> {
    /// Encodes a running guest, its head on the first cell, onto a tape of
    /// the universal machine.
    pub fn encode(&self, guest: &RunningTuringMachine<Guest>) -> (r: Vec<Symbol>)
        requires
            self.wf(),
            *guest.spec == *self.guest,
            tm_within(self.guest.spec_states(), self.guest.spec_symbols(), guest.state, guest.tape@),
        ensures
            r@ == encode_spec(self.guest, rules_view(self.rules@), guest.state, guest.tape@),
    {
        let g = self.guest;
        let ghost ss = g.spec_states();
        let ghost ys = g.spec_symbols();
        let sb = num_bits(self.state_encodings.len());
        let yb = num_bits(self.symbol_encodings.len());
        proof {
            lemma_num_bits(ss.len());
            lemma_num_bits(ys.len());
        }
        let mut tape: Vec<Symbol> = Vec::new();
        tape.push(Symbol::Dollar);
        // ACCEPT section
        let mut first = true;
        let mut i: usize = 0;
        while i < self.state_encodings.len()
            invariant
                i <= ss.len(),
                self.wf(),
                g == self.guest,
                g.inv(),
                ss == g.spec_states(),
                self.state_encodings@ == ss,
                sb as nat == spec_num_bits(ss.len()),
                ss.len() <= two_pow(sb as nat),
                first == (accepting_codes(g, ss, i as int).len() == 0),
                tape@ == seq![Symbol::Dollar] + join_codes(accepting_codes(g, ss, i as int), sb as nat, Symbol::Semi),
            decreases ss.len() - i,
        {
            let s = self.state_encodings[i];
            if g.is_accepting(s) {
                if !first {
                    tape.push(Symbol::Semi);
                }
                first = false;
                push_code(&mut tape, i, sb);
                proof {
                    let c = accepting_codes(g, ss, i + 1);
                    assert(c.drop_last() == accepting_codes(g, ss, i as int));
                    assert(tape@ =~= seq![Symbol::Dollar] + join_codes(c, sb as nat, Symbol::Semi));
                }
            }
            i = i + 1;
        }
        // BLANK section
        tape.push(Symbol::Hash);
        let blank = g.blank();
        let blank_code = self.symbol_code(&blank);
        push_code(&mut tape, blank_code, yb);
        // RULES section
        tape.push(Symbol::Hash);
        let mut rules_syms = serialize_rules(&self.rules, sb, yb);
        tape.append(&mut rules_syms);
        // STATE section
        tape.push(Symbol::Hash);
        let state_code = self.state_code(&guest.state);
        proof {
            lemma_position_in(ss, guest.state);
        }
        push_code(&mut tape, state_code, sb);
        // TAPE section
        tape.push(Symbol::Hash);
        let caret_pos = tape.len();
        let ghost head = tape@;
        let ghost cells = symbol_codes(ys, written_cells(guest.tape@, blank));
        if guest.tape.len() == 0 {
            tape.push(Symbol::Comma);
            push_code(&mut tape, blank_code, yb);
            proof {
                assert(cells =~= seq![position(ys, blank) as nat]);
                assert(cells.drop_last() =~= Seq::<nat>::empty());
                assert(cells_section(cells.drop_last(), yb as nat) =~= Seq::<Symbol>::empty());
                assert(tape@ =~= head + cells_section(cells, yb as nat));
            }
        } else {
            let mut k: usize = 0;
            while k < guest.tape.len()
                invariant
                    k <= guest.tape@.len(),
                    self.wf(),
                    ys == g.spec_symbols(),
                    self.symbol_encodings@ == ys,
                    yb as nat == spec_num_bits(ys.len()),
                    ys.len() <= two_pow(yb as nat),
                    tm_within(self.guest.spec_states(), ys, guest.state, guest.tape@),
                    guest.tape@.len() > 0,
                    cells == symbol_codes(ys, guest.tape@),
                    tape@ == head + cells_section(cells.take(k as int), yb as nat),
                decreases guest.tape.len() - k,
            {
                tape.push(Symbol::Comma);
                let y = guest.tape[k];
                proof {
                    assert(ys.contains(guest.tape@[k as int]));
                    lemma_position_in(ys, y);
                }
                let c = self.symbol_code(&y);
                push_code(&mut tape, c, yb);
                proof {
                    assert(cells.take(k + 1).drop_last() =~= cells.take(k as int));
                    assert(cells.take(k + 1).last() == c as nat);
                    assert(tape@ =~= head + cells_section(cells.take(k + 1), yb as nat));
                }
                k = k + 1;
            }
            assert(cells.take(k as int) =~= cells);
        }
        proof {
            lemma_cells_section_start(cells, yb as nat);
        }
        tape.set(caret_pos, Symbol::Caret);
        proof {
            assert(accepting_codes(g, ss, ss.len() as int) == accepting_codes(g, ss, i as int));
            assert(tape@ =~= encode_spec(self.guest, rules_view(self.rules@), guest.state, guest.tape@));
        }
        tape
    }
}

/// A cells section starts with its first comma.
pub proof fn lemma_cells_section_start(codes: Seq<nat>, width: nat)
    requires
        codes.len() > 0,
    ensures
        cells_section(codes, width).len() > 0,
        cells_section(codes, width)[0] == Symbol::Comma,
    decreases codes.len(),
{
    let rest = cells_section(codes.drop_last(), width);
    if codes.len() > 1 {
        lemma_cells_section_start(codes.drop_last(), width);
        assert(cells_section(codes, width)[0] == rest[0]);
    } else {
        assert(codes.drop_last().len() == 0);
        assert(rest =~= Seq::<Symbol>::empty());
        assert(cells_section(codes, width)[0] == Symbol::Comma);
    }
}


/// Why a tape cannot be decoded.
#[derive(Debug, Clone, Copy, PartialEq, Eq, Structural)]
pub enum DecodeError {
    /// A tape needs at least four `#` to separate its sections.
    TooFewDelimiters { found: usize },
}

/// The digit character of `d`, for `d` below ten.
pub open spec fn digit_char(d: nat) -> char {
    if d == 0 {
        '0'
    } else if d == 1 {
        '1'
    } else if d == 2 {
        '2'
    } else if d == 3 {
        '3'
    } else if d == 4 {
        '4'
    } else if d == 5 {
        '5'
    } else if d == 6 {
        '6'
    } else if d == 7 {
        '7'
    } else if d == 8 {
        '8'
    } else {
        '9'
    }
}

/// The decimal digits of `n`, most significant first.
pub open spec fn decimal(n: nat) -> Seq<char>
    decreases n,
{
    if n < 10 {
        seq![digit_char(n)]
    } else {
        decimal(n / 10).push(digit_char(n % 10))
    }
}

fn digit(d: usize) -> (c: char)
    requires
        d < 10,
    ensures
        c == digit_char(d as nat),
{
    if d == 0 {
        '0'
    } else if d == 1 {
        '1'
    } else if d == 2 {
        '2'
    } else if d == 3 {
        '3'
    } else if d == 4 {
        '4'
    } else if d == 5 {
        '5'
    } else if d == 6 {
        '6'
    } else if d == 7 {
        '7'
    } else if d == 8 {
        '8'
    } else {
        '9'
    }
}

/// Appends the decimal digits of `n`.
fn push_decimal(s: &mut String, n: usize)
    ensures
        final(s)@ == old(s)@ + decimal(n as nat),
    decreases n,
{
    if n >= 10 {
        push_decimal(s, n / 10);
    }
    push_char(s, digit(n % 10));
    assert(old(s)@ + decimal(n as nat) =~= if n >= 10 {
        old(s)@ + decimal((n / 10) as nat) + seq![digit_char((n % 10) as nat)]
    } else {
        old(s)@ + seq![digit_char((n % 10) as nat)]
    });
}

impl DecodeError {
    /// The error's message: `expected at least 4 # delimiters, found k`.
    pub fn message(&self) -> (r: String)
        ensures
            r@ == "expected at least 4 # delimiters, found "@ + match self {
                DecodeError::TooFewDelimiters { found } => decimal(*found as nat),
            },
    {
        match self {
            DecodeError::TooFewDelimiters { found } => {
                let mut s = "expected at least 4 # delimiters, found ".to_owned();
                push_decimal(&mut s, *found);
                s
            },
        }
    }
}

/// The positions of the `#` symbols of a tape, in order.
pub open spec fn hash_positions(tape: Seq<Symbol>) -> Seq<int>
    decreases tape.len(),
{
    if tape.len() == 0 {
        Seq::empty()
    } else {
        let rest = hash_positions(tape.drop_last());
        if tape.last() == Symbol::Hash {
            rest.push(tape.len() - 1)
        } else {
            rest
        }
    }
}

/// Reads the cells of the tape section from position `i`: `,` starts a
/// new cell, `^` marks the head's cell, `>` is skipped, a blank or `$`
/// ends the section, and anything else is a code of `width` symbols; an
/// incomplete code at the end is dropped.  Returns the codes read and the
/// head's cell.
pub open spec fn parse_cells(
    tape: Seq<Symbol>,
    width: nat,
    i: int,
    cell: nat,
    cells: Seq<nat>,
    head: nat,
) -> (Seq<nat>, nat)
    decreases tape.len() - i,
{
    if i < 0 || i >= tape.len() || width == 0 {
        (cells, head)
    } else {
        let s = tape[i];
        if s == Symbol::Blank || s == Symbol::Dollar {
            (cells, head)
        } else if s == Symbol::Comma {
            parse_cells(tape, width, i + 1, cell + 1, cells, head)
        } else if s == Symbol::Caret {
            parse_cells(tape, width, i + 1, cell, cells, cell)
        } else if s == Symbol::Gt {
            parse_cells(tape, width, i + 1, cell, cells, head)
        } else if i + width > tape.len() {
            (cells, head)
        } else {
            parse_cells(tape, width, i + width, cell, cells.push(symbols_value(tape, i, width)), head)
        }
    }
}

/// Every code that `parse_cells` reads from position `i` is made of bits
/// and is below `bound`.
pub open spec fn parse_ok(tape: Seq<Symbol>, width: nat, i: int, bound: nat) -> bool
    decreases tape.len() - i,
{
    if i < 0 || i >= tape.len() || width == 0 {
        true
    } else {
        let s = tape[i];
        if s == Symbol::Blank || s == Symbol::Dollar {
            true
        } else if s == Symbol::Comma || s == Symbol::Caret || s == Symbol::Gt {
            parse_ok(tape, width, i + 1, bound)
        } else if i + width > tape.len() {
            true
        } else {
            &&& all_bits(tape, i, width as int)
            &&& symbols_value(tape, i, width) < bound
            &&& parse_ok(tape, width, i + width, bound)
        }
    }
}

/// A tape that decoding can read for a guest with these state and symbol
/// lists: with fewer than four `#` it is refused; with four or more, the
/// state section holds the code of a state and the tape section codes of
/// symbols.
pub open spec fn tape_decodable<S, Y>(states: Seq<S>, symbols: Seq<Y>, tape: Seq<Symbol>) -> bool {
    let h = hash_positions(tape);
    let sb = spec_num_bits(states.len());
    h.len() >= 4 ==> {
        &&& all_bits(tape, h[2] + 1, sb as int)
        &&& symbols_value(tape, h[2] + 1, sb) < states.len()
        &&& parse_ok(tape, spec_num_bits(symbols.len()), h[3] + 1, symbols.len())
    }
}

/// The guest configuration that a decodable tape with at least four `#`
/// holds, for a guest with these state and symbol lists.
pub open spec fn decoded_guest<S, Y>(states: Seq<S>, symbols: Seq<Y>, tape: Seq<Symbol>) -> crate::tm::TmConfig<S, Y> {
    let h = hash_positions(tape);
    let parsed = parse_cells(tape, spec_num_bits(symbols.len()), h[3] + 1, 0, Seq::empty(), 0);
    crate::tm::TmConfig {
        state: states[symbols_value(tape, h[2] + 1, spec_num_bits(states.len())) as int],
        pos: parsed.1,
        tape: parsed.0.map_values(|c: nat| symbols[c as int]),
    }
}

impl<'a, Guest: TuringMachineSpec> MyUtmSpecOptimizationHints<'a, Guest> {
    /// A tape that decoding can read with these hints.
    pub open spec fn decodable(&self, tape: Seq<Symbol>) -> bool {
        tape_decodable(self.state_encodings@, self.symbol_encodings@, tape)
    }

    /// The guest configuration that a tape holds, read with these hints.
    pub open spec fn decoded_config(&self, tape: Seq<Symbol>) -> crate::tm::TmConfig<Guest::State, Guest::Symbol> {
        decoded_guest(self.state_encodings@, self.symbol_encodings@, tape)
    }

    /// Reads the guest machine back from a tape of the universal machine.
    pub fn decode(&self, tape: &[Symbol]) -> (r: Result<RunningTuringMachine<'a, Guest>, DecodeError>)
        requires
            self.wf(),
            self.decodable(tape@),
        ensures
            hash_positions(tape@).len() < 4 ==> r == Err::<RunningTuringMachine<'a, Guest>, DecodeError>(
                DecodeError::TooFewDelimiters { found: hash_positions(tape@).len() as usize },
            ),
            hash_positions(tape@).len() >= 4 ==> (r matches Ok(tm) && tm.spec == self.guest
                && tm.config() == self.decoded_config(tape@)),
    {
        let n = tape.len();
        let ghost h = hash_positions(tape@);
        let mut hashes: Vec<usize> = Vec::new();
        let mut i: usize = 0;
        while i < n
            invariant
                i <= n,
                n == tape@.len(),
                hashes@.map_values(|p: usize| p as int) == hash_positions(tape@.take(i as int)),
                hashes@.len() <= i,
                forall|k: int| 0 <= k < hashes@.len() ==> (#[trigger] hashes@[k]) < i,
            decreases n - i,
        {
            assert(tape@.take(i + 1).drop_last() =~= tape@.take(i as int));
            if tape[i] == Symbol::Hash {
                let ghost before = hashes@;
                hashes.push(i);
                assert(hashes@.map_values(|p: usize| p as int) =~= before.map_values(|p: usize| p as int).push(i as int));
            }
            i = i + 1;
        }
        assert(tape@.take(i as int) =~= tape@);
        if hashes.len() < 4 {
            return Err(DecodeError::TooFewDelimiters { found: hashes.len() });
        }
        assert(hashes@[2] as int == h[2]);
        assert(hashes@[3] as int == h[3]);
        let sb = num_bits(self.state_encodings.len());
        let yb = num_bits(self.symbol_encodings.len());
        let state_start = hashes[2] + 1;
        let state_index = from_binary_at(tape, state_start, sb);
        let state = self.state_encodings[state_index];
        // TAPE section
        let start = hashes[3] + 1;
        let mut cells: Vec<usize> = Vec::new();
        let mut head: usize = 0;
        let mut cell: usize = 0;
        let mut j: usize = start;
        let mut done = false;
        let nsym = self.symbol_encodings.len();
        assert(cells@.map_values(|c: usize| c as nat) =~= Seq::<nat>::empty());
        let ghost bound = self.symbol_encodings@.len();
        while j < n && !done
            invariant
                n == tape@.len(),
                start <= j,
                j <= n,
                cell <= j,
                head <= cell,
                yb as nat == self.n_symbol_bits(),
                yb >= 1,
                bound == self.symbol_encodings@.len(),
                bound == nsym,
                !done ==> parse_ok(tape@, yb as nat, j as int, bound),
                !done ==> parse_cells(tape@, yb as nat, start as int, 0, Seq::empty(), 0) == parse_cells(
                    tape@,
                    yb as nat,
                    j as int,
                    cell as nat,
                    cells@.map_values(|c: usize| c as nat),
                    head as nat,
                ),
                done ==> parse_cells(tape@, yb as nat, start as int, 0, Seq::empty(), 0) == (
                    cells@.map_values(|c: usize| c as nat),
                    head as nat,
                ),
                forall|k: int| 0 <= k < cells@.len() ==> (#[trigger] cells@[k]) < bound,
            decreases (n - j) as int + if done { 0int } else { 1int },
        {
            let s = tape[j];
            if s == Symbol::Blank || s == Symbol::Dollar {
                done = true;
            } else if s == Symbol::Comma {
                j = j + 1;
                cell = cell + 1;
            } else if s == Symbol::Caret {
                head = cell;
                j = j + 1;
            } else if s == Symbol::Gt {
                j = j + 1;
            } else if yb > n - j {
                done = true;
            } else {
                let v = from_binary_at(tape, j, yb);
                let ghost before = cells@;
                cells.push(v);
                assert(cells@.map_values(|c: usize| c as nat) =~= before.map_values(|c: usize| c as nat).push(v as nat));
                j = j + yb;
            }
        }
        let mut guest_tape: Vec<Guest::Symbol> = Vec::new();
        let mut k: usize = 0;
        while k < cells.len()
            invariant
                k <= cells@.len(),
                bound == self.symbol_encodings@.len(),
                forall|q: int| 0 <= q < cells@.len() ==> (#[trigger] cells@[q]) < bound,
                guest_tape@ == cells@.take(k as int).map_values(|c: usize| self.symbol_encodings@[c as int]),
            decreases cells.len() - k,
        {
            guest_tape.push(self.symbol_encodings[cells[k]]);
            assert(cells@.take(k + 1).map_values(|c: usize| self.symbol_encodings@[c as int]) =~= cells@.take(k as int).map_values(|c: usize| self.symbol_encodings@[c as int]).push(self.symbol_encodings@[cells@[k as int] as int]));
            k = k + 1;
        }
        assert(cells@.take(k as int) =~= cells@);
        let r = RunningTuringMachine { spec: self.guest, state, pos: head, tape: guest_tape };
        assert(r.config().tape =~= self.decoded_config(tape@).tape);
        Ok(r)
    }
}

/// The positions of the `#` symbols of a tape, in order.
pub(crate) fn hash_positions_of(tape: &[Symbol]) -> (r: Vec<usize>)
    ensures
        r@.map_values(|p: usize| p as int) == hash_positions(tape@),
        forall|k: int| 0 <= k < r@.len() ==> (#[trigger] r@[k]) < tape@.len(),
{
    let n = tape.len();
    let mut hashes: Vec<usize> = Vec::new();
    let mut i: usize = 0;
    while i < n
        invariant
            i <= n,
            n == tape@.len(),
            hashes@.map_values(|p: usize| p as int) == hash_positions(tape@.take(i as int)),
            forall|k: int| 0 <= k < hashes@.len() ==> (#[trigger] hashes@[k]) < i,
        decreases n - i,
    {
        assert(tape@.take(i + 1).drop_last() =~= tape@.take(i as int));
        if tape[i] == Symbol::Hash {
            let ghost before = hashes@;
            hashes.push(i);
            assert(hashes@.map_values(|p: usize| p as int) =~= before.map_values(|p: usize| p as int).push(i as int));
        }
        i = i + 1;
    }
    assert(tape@.take(i as int) =~= tape@);
    hashes
}

/// Whether every code that the tape section holds from position `start`
/// is made of bits and below `bound`.
fn cells_ok(tape: &[Symbol], width: usize, start: usize, bound: usize) -> (r: bool)
    requires
        width >= 1,
    ensures
        r == parse_ok(tape@, width as nat, start as int, bound as nat),
{
    let n = tape.len();
    let mut j: usize = start;
    while j < n
        invariant
            n == tape@.len(),
            width >= 1,
            parse_ok(tape@, width as nat, start as int, bound as nat) == parse_ok(
                tape@,
                width as nat,
                j as int,
                bound as nat,
            ),
        decreases n - j,
    {
        let s = tape[j];
        if s == Symbol::Blank || s == Symbol::Dollar {
            return true;
        } else if s == Symbol::Comma || s == Symbol::Caret || s == Symbol::Gt {
            j = j + 1;
        } else if width > n - j {
            return true;
        } else {
            if !code_below(tape, j, width, bound) {
                return false;
            }
            j = j + width;
        }
    }
    true
}

impl<'a, Guest: TuringMachineSpec> MyUtmSpecOptimizationHints<'a, Guest> {
    /// Whether decoding can read a tape with these hints.
    pub fn is_decodable(&self, tape: &[Symbol]) -> (r: bool)
        ensures
            r == self.decodable(tape@),
    {
        let hashes = hash_positions_of(tape);
        let ghost h = hash_positions(tape@);
        assert(hashes@.len() == h.len());
        if hashes.len() < 4 {
            return true;
        }
        assert(hashes@[2] as int == h[2]);
        assert(hashes@[3] as int == h[3]);
        let n = tape.len();
        assert(hashes@[2] < n);
        assert(hashes@[3] < n);
        let sb = num_bits(self.state_encodings.len());
        let yb = num_bits(self.symbol_encodings.len());
        code_below(tape, hashes[2] + 1, sb, self.state_encodings.len()) && cells_ok(
            tape,
            yb,
            hashes[3] + 1,
            self.symbol_encodings.len(),
        )
    }
}

/// Reads the cells of a tape section from position `start`, as
/// `parse_cells` does: the codes read and the head's cell.
pub(crate) fn read_cells(tape: &[Symbol], width: usize, start: usize, bound: usize) -> (r: (Vec<usize>, usize))
    requires
        width >= 1,
        parse_ok(tape@, width as nat, start as int, bound as nat),
    ensures
        (r.0@.map_values(|c: usize| c as nat), r.1 as nat) == parse_cells(
            tape@,
            width as nat,
            start as int,
            0,
            Seq::empty(),
            0,
        ),
        forall|k: int| 0 <= k < r.0@.len() ==> (#[trigger] r.0@[k]) < bound,
{
    let n = tape.len();
    let mut cells: Vec<usize> = Vec::new();
    let mut head: usize = 0;
    let mut cell: usize = 0;
    let mut j: usize = start;
    let mut done = false;
    if start >= n {
        assert(cells@.map_values(|c: usize| c as nat) =~= Seq::<nat>::empty());
        return (cells, head);
    }
    assert(cells@.map_values(|c: usize| c as nat) =~= Seq::<nat>::empty());
    while j < n && !done
        invariant
            n == tape@.len(),
            start <= j,
            j <= n,
            cell <= j,
            head <= cell,
            width >= 1,
            !done ==> parse_ok(tape@, width as nat, j as int, bound as nat),
            !done ==> parse_cells(tape@, width as nat, start as int, 0, Seq::empty(), 0) == parse_cells(
                tape@,
                width as nat,
                j as int,
                cell as nat,
                cells@.map_values(|c: usize| c as nat),
                head as nat,
            ),
            done ==> parse_cells(tape@, width as nat, start as int, 0, Seq::empty(), 0) == (
                cells@.map_values(|c: usize| c as nat),
                head as nat,
            ),
            forall|k: int| 0 <= k < cells@.len() ==> (#[trigger] cells@[k]) < bound,
        decreases (n - j) as int + if done { 0int } else { 1int },
    {
        let s = tape[j];
        if s == Symbol::Blank || s == Symbol::Dollar {
            done = true;
        } else if s == Symbol::Comma {
            j = j + 1;
            cell = cell + 1;
        } else if s == Symbol::Caret {
            head = cell;
            j = j + 1;
        } else if s == Symbol::Gt {
            j = j + 1;
        } else if width > n - j {
            done = true;
        } else {
            let v = from_binary_at(tape, j, width);
            let ghost before = cells@;
            cells.push(v);
            assert(cells@.map_values(|c: usize| c as nat) =~= before.map_values(|c: usize| c as nat).push(v as nat));
            j = j + width;
        }
    }
    (cells, head)
}

} // verus!
