//! The rules of the universal machine, and the machine itself.
//!
//! The rules are built section by section; each section gives the rules
//! of its own states, so no state and symbol get two rules.
use vstd::prelude::*;

use crate::encoding::{
    decoded_guest, encode_spec, grouped, hash_positions, rules_view, tape_decodable, tm_within, DecodeError,
    MyUtmSpecOptimizationHints,
};
use crate::tm::{
    closed, index_bound, lookup_rules, pad_tape, step, step_config, Dir, Label, Rule, RunUntilResult, RunningTMStatus,
    RunningTuringMachine, SimpleTuringMachineSpec, TmConfig, TuringMachineSpec,
};
use crate::utm_symbols::{
    all_utm_states, all_utm_symbols, lemma_state_index_bound, lemma_state_list_complete,
    lemma_symbol_index_bound, lemma_symbol_list_complete, utm_symbol_list_index, State, Symbol,
    N_UTM_STATES,
};
use crate::utm_symbols::State::{
    Accept, AcceptSeekHome, AccFinalHome, AccRestAcc, AccRestSkip1, AccRestSkip2,
    AccRestState, ApplyReadNst, ChkAccBack2acc, ChkAccC0, ChkAccC0Find, ChkAccC0Sk1,
    ChkAccC0Sk2, ChkAccC1, ChkAccC1Find, ChkAccC1Sk1, ChkAccC1Sk2, ChkAccDoRest,
    ChkAccDoRest2, ChkAccFailBit, ChkAccInit, ChkAccIntoAcc, ChkAccNextEntry, ChkAccOk,
    ChkAccOkAcc, ChkAccOkSk1, ChkAccOkSk2, ChkAccOkFind, ChkAccOkSkip, ChkAccRestState,
    CmpStC0, CmpStC0Find, CmpStC1, CmpStC1Find, CmpStFail, CmpStNextbit, CmpStOk, CmpStRead,
    CmpSymC0, CmpSymC0Fb, CmpSymC0Fh, CmpSymC0S1, CmpSymC1, CmpSymC1Fb, CmpSymC1Fh,
    CmpSymC1S1, CmpSymFail, CmpSymNb2, CmpSymNextbit, CmpSymOk, CmpSymRead, CpNstC0, CpNstC0W,
    CpNstC1, CpNstC1W, CpNstDone, CpNstNext, CpNstNext2, CpNstNext3, CpNstRestDo,
    CpNstRestNav, CpNstRet, CpNsymC0, CpNsymC0Fb, CpNsymC0Fh, CpNsymC0S1, CpNsymC0S2,
    CpNsymC0S3, CpNsymC1, CpNsymC1Fb, CpNsymC1Fh, CpNsymC1S1, CpNsymC1S2, CpNsymC1S3,
    CpNsymDone, CpNsymFn2, CpNsymFn3, CpNsymFn4, CpNsymFnext, CpNsymNav, CpNsymNav2,
    CpNsymNav3, CpNsymRead, CpNsymRestNav, CpNsymRet, CpNsymRnDo, CpNsymRnFh, CpNsymRnS1,
    CpNsymRnS2, CpNsymRnS3, CpNsymSeek, DoneSeekHome, Init, InitSeekEnd, InitSkip, MarkRule,
    MarkRuleNoMatch, MlFindHead, MlMark, MlNav, MlRestore, MlS1, MlS2, MlS3, MoveLeft,
    MoveRight, MrExtBc0, MrExtBc1, MrExtBcNext, MrExtBcRet, MrExtendInit, MrExtH1, MrExtH2,
    MrExtH3, MrExtHome, MrExtNavToHead, MrExtReadBlank, MrExtRestBlank, MrExtToBlank,
    MrExtWriteHead, MrFindHead, MrNav, MrPlaceHead, MrS1, MrS2, MrS3, MrSkipCell, NpMatchPre,
    NpNextbit, NpReadDir, NpSmcHandler, NpSymfRestore, RdRead, RdSk2, RdSk3, RdSk4,
    RdSkipToDir, ReadDir, Reject, RejectSeekHome, RejFinalHome, RejRestAcc, RejRestSkip1,
    RejRestSkip2, RejRestState, SmcFh, SmcRestDone, SmcRestHead, SmcRestSym, SmcS1, SmcSkipSt,
    StfFindStar, StfGoPrev, StfRestoreRule, StfRestoreState, StfSkipRest, StMatchCleanup,
    StmBackToRule, StmGoLeft, StmGotoState, StmRestoreRule, StmRestoreState, SymfDeactivate,
    SymfRestHead, SymfRestSym, SymfSeekStar, SymfSkipRest, SymfSkipSt, SymMatchCleanup,
    SymSkipState
};
use crate::utm_symbols::Symbol::{
    Blank, Zero, One, X, Y, Pipe, Semi, Comma, Caret, L, R, Dot, Star, Gt, Dollar
};

verus! {

/// The block of the rule builder that gives the rules of a state; the
/// halting states have none.
pub open spec fn block_of(s: State) -> nat {
    match s {
        State::Init | State::InitSkip | State::InitSeekEnd => 0,
        State::MarkRule | State::MarkRuleNoMatch => 1,
        State::CmpStRead | State::CmpStC0 | State::CmpStC0Find | State::CmpStC1 | State::CmpStC1Find => 2,
        State::CmpStOk | State::CmpStNextbit => 3,
        State::StMatchCleanup | State::StmGoLeft | State::StmRestoreRule => 4,
        State::StmGotoState | State::StmRestoreState | State::StmBackToRule | State::SymSkipState => 5,
        State::CmpStFail | State::StfRestoreState | State::StfFindStar | State::StfRestoreRule | State::StfGoPrev => 6,
        State::CmpSymRead | State::CmpSymC0 | State::CmpSymC0S1 | State::CmpSymC0Fh | State::CmpSymC0Fb
        | State::CmpSymC1 | State::CmpSymC1S1 | State::CmpSymC1Fh | State::CmpSymC1Fb => 7,
        State::CmpSymOk | State::CmpSymNextbit | State::CmpSymNb2 | State::NpNextbit | State::NpMatchPre => 8,
        State::CmpSymFail | State::SymfRestHead | State::SymfSeekStar | State::SymfSkipSt => 9,
        State::NpSymfRestore | State::SymfRestSym | State::SymfDeactivate => 10,
        State::SymMatchCleanup | State::SmcS1 | State::SmcFh | State::SmcRestHead => 11,
        State::SmcRestDone | State::SmcSkipSt | State::NpSmcHandler | State::NpReadDir | State::SmcRestSym => 12,
        State::ApplyReadNst | State::CpNstC0 | State::CpNstC0W | State::CpNstC1 | State::CpNstC1W => 13,
        State::CpNstRet | State::CpNstNext | State::CpNstNext2 | State::CpNstNext3 => 14,
        State::CpNstDone | State::CpNstRestNav | State::CpNstRestDo | State::CpNsymSeek => 15,
        State::CpNsymNav | State::CpNsymNav2 | State::CpNsymNav3 | State::CpNsymRead => 16,
        State::CpNsymC0 | State::CpNsymC0S1 | State::CpNsymC0Fh | State::CpNsymC0Fb | State::CpNsymC1
        | State::CpNsymC1S1 | State::CpNsymC1Fh | State::CpNsymC1Fb => 17,
        State::CpNsymRet | State::CpNsymFnext | State::CpNsymFn2 | State::CpNsymFn3 | State::CpNsymFn4 => 18,
        State::CpNsymDone | State::CpNsymRestNav | State::CpNsymRnS1 | State::CpNsymRnFh | State::CpNsymRnDo => 19,
        State::ReadDir | State::RdSkipToDir | State::RdSk2 | State::RdSk3 | State::RdSk4 | State::RdRead => 20,
        State::MoveRight | State::MrNav | State::MrS1 | State::MrFindHead | State::MrSkipCell | State::MrPlaceHead => 21,
        State::MrExtendInit | State::MrExtToBlank | State::MrExtWriteHead | State::MrExtHome | State::MrExtReadBlank => 22,
        State::MrExtBc0 | State::MrExtBc1 | State::MrExtBcRet => 23,
        State::MrExtBcNext | State::MrExtRestBlank | State::MrExtNavToHead => 24,
        State::MoveLeft | State::MlNav | State::MlS1 | State::MlFindHead | State::MlMark | State::MlRestore => 25,
        State::DoneSeekHome => 26,
        State::ChkAccInit | State::ChkAccC0 | State::ChkAccC0Sk1 | State::ChkAccC0Sk2 | State::ChkAccC0Find
        | State::ChkAccC1 | State::ChkAccC1Sk1 | State::ChkAccC1Sk2 | State::ChkAccC1Find => 27,
        State::ChkAccOk | State::ChkAccOkSk1 | State::ChkAccOkSk2 | State::ChkAccOkAcc | State::ChkAccOkFind
        | State::ChkAccOkSkip => 28,
        State::ChkAccFailBit | State::ChkAccRestState | State::ChkAccBack2acc | State::ChkAccIntoAcc => 29,
        State::ChkAccDoRest | State::ChkAccDoRest2 | State::ChkAccNextEntry => 30,
        State::AcceptSeekHome | State::AccRestAcc | State::AccRestSkip1 | State::AccRestSkip2 | State::AccRestState
        | State::AccFinalHome => 31,
        State::RejectSeekHome | State::RejRestAcc | State::RejRestSkip1 | State::RejRestSkip2 | State::RejRestState
        | State::RejFinalHome => 32,
        _ => 100,
    }
}

/// Whether some rule of a list is for state `s` and symbol `y`.
pub open spec fn has_key(rules: Seq<Rule<State, Symbol>>, s: State, y: Symbol) -> bool {
    exists|i: int| 0 <= i < rules.len() && (#[trigger] rules[i]).0 == s && rules[i].1 == y
}

/// No two rules of a list are for the same state and symbol.
pub open spec fn keys_distinct(rules: Seq<Rule<State, Symbol>>) -> bool {
    forall|i: int, j: int|
        0 <= i < j < rules.len() ==> !((#[trigger] rules[i]).0 == (#[trigger] rules[j]).0 && rules[i].1
            == rules[j].1)
}

/// The rules that keep the state and the symbol of each listed symbol and
/// move in one direction.
pub open spec fn scan_rules(state: State, syms: Seq<Symbol>, dir: Dir) -> Seq<Rule<State, Symbol>> {
    syms.map_values(|y: Symbol| (state, y, state, y, dir))
}

/// A table of rules under construction; a state and a symbol get at most
/// one rule.
struct RuleSet {
    rules: Vec<Rule<State, Symbol>>,
}

impl RuleSet {
    fn new() -> (r: Self)
        ensures
            r.rules@ == Seq::<Rule<State, Symbol>>::empty(),
    {
        RuleSet { rules: Vec::new() }
    }

    /// Adds a rule; the state and the symbol must have none yet.
    fn add(&mut self, state: State, sym: Symbol, new_state: State, new_sym: Symbol, dir: Dir)
        requires
            keys_distinct(old(self).rules@),
            !has_key(old(self).rules@, state, sym),
        ensures
            final(self).rules@ == old(self).rules@.push((state, sym, new_state, new_sym, dir)),
            keys_distinct(final(self).rules@),
    {
        self.rules.push((state, sym, new_state, new_sym, dir));
    }
}

/// Rules that move right over each listed symbol, keeping state and symbol.
fn scan_right(m: &mut RuleSet, state: State, syms: &Vec<Symbol>)
    requires
        keys_distinct(old(m).rules@),
        syms@.no_duplicates(),
        forall|k: int| 0 <= k < syms@.len() ==> !has_key(old(m).rules@, state, #[trigger] syms@[k]),
    ensures
        final(m).rules@ == old(m).rules@ + scan_rules(state, syms@, Dir::Right),
        keys_distinct(final(m).rules@),
{
    scan(m, state, syms, Dir::Right);
}

/// Rules that move left over each listed symbol, keeping state and symbol.
fn scan_left(m: &mut RuleSet, state: State, syms: &Vec<Symbol>)
    requires
        keys_distinct(old(m).rules@),
        syms@.no_duplicates(),
        forall|k: int| 0 <= k < syms@.len() ==> !has_key(old(m).rules@, state, #[trigger] syms@[k]),
    ensures
        final(m).rules@ == old(m).rules@ + scan_rules(state, syms@, Dir::Left),
        keys_distinct(final(m).rules@),
{
    scan(m, state, syms, Dir::Left);
}

fn scan(m: &mut RuleSet, state: State, syms: &Vec<Symbol>, dir: Dir)
    requires
        keys_distinct(old(m).rules@),
        syms@.no_duplicates(),
        forall|k: int| 0 <= k < syms@.len() ==> !has_key(old(m).rules@, state, #[trigger] syms@[k]),
    ensures
        final(m).rules@ == old(m).rules@ + scan_rules(state, syms@, dir),
        keys_distinct(final(m).rules@),
{
    let ghost start = m.rules@;
    let mut k: usize = 0;
    while k < syms.len()
        invariant
            k <= syms@.len(),
            syms@.no_duplicates(),
            forall|j: int| 0 <= j < syms@.len() ==> !has_key(start, state, #[trigger] syms@[j]),
            m.rules@ == start + scan_rules(state, syms@.take(k as int), dir),
            keys_distinct(m.rules@),
        decreases syms.len() - k,
    {
        let s = syms[k];
        proof {
            if has_key(m.rules@, state, s) {
                let i = choose|i: int| 0 <= i < m.rules@.len() && (#[trigger] m.rules@[i]).0 == state && m.rules@[i].1 == s;
                if i < start.len() {
                    assert(m.rules@[i] == start[i]);
                } else {
                    assert(m.rules@[i] == scan_rules(state, syms@.take(k as int), dir)[i - start.len()]);
                    assert(syms@[i - start.len()] == s);
                }
            }
        }
        m.add(state, s, state, s, dir);
        assert(scan_rules(state, syms@.take(k + 1), dir) =~= scan_rules(state, syms@.take(k as int), dir).push(
            (state, s, state, s, dir),
        ));
        k = k + 1;
    }
    assert(syms@.take(k as int) =~= syms@);
}


/// Rules that move left to the start marker `$` and step right onto the
/// cell after it, entering `to`.
fn seek_home(m: &mut RuleSet, from: State, to: State)
    requires
        keys_distinct(old(m).rules@),
        fresh_for(old(m).rules@, set![from]),
    ensures
        final(m).rules@ == old(m).rules@ + scan_rules(from, home_scan_symbols(), Dir::Left).push(
            (from, Dollar, to, Dollar, Dir::Right),
        ),
        keys_distinct(final(m).rules@),
{
    let syms = vec![Zero, One, X, Y, Symbol::Hash, Pipe, Semi, Comma, Caret, Dot, Star, Gt, L, R];
    scan_left(m, from, &syms);
    m.add(from, Dollar, to, Dollar, Dir::Right);
}

/// The symbols that `seek_home` moves over.
pub open spec fn home_scan_symbols() -> Seq<Symbol> {
    seq![Zero, One, X, Y, Symbol::Hash, Pipe, Semi, Comma, Caret, Dot, Star, Gt, L, R]
}

/// Rules that move left to the marked rule's `*` and step right past it,
/// entering `to`.
fn seek_star(m: &mut RuleSet, from: State, to: State)
    requires
        keys_distinct(old(m).rules@),
        fresh_for(old(m).rules@, set![from]),
    ensures
        final(m).rules@ == old(m).rules@ + scan_rules(from, star_scan_symbols(), Dir::Left).push(
            (from, Star, to, Star, Dir::Right),
        ),
        keys_distinct(final(m).rules@),
{
    let syms = vec![Zero, One, X, Y, Symbol::Hash, Pipe, Semi, Comma, Caret, Dot, L, R, Gt];
    scan_left(m, from, &syms);
    m.add(from, Star, to, Star, Dir::Right);
}

/// The symbols that `seek_star` moves over.
pub open spec fn star_scan_symbols() -> Seq<Symbol> {
    seq![Zero, One, X, Y, Symbol::Hash, Pipe, Semi, Comma, Caret, Dot, L, R, Gt]
}

/// The rules that `seek_home` adds.
pub open spec fn seek_home_rules(from: State, to: State) -> Seq<Rule<State, Symbol>> {
    scan_rules(from, home_scan_symbols(), Dir::Left).push((from, Dollar, to, Dollar, Dir::Right))
}

/// The rules that `seek_star` adds.
pub open spec fn seek_star_rules(from: State, to: State) -> Seq<Rule<State, Symbol>> {
    scan_rules(from, star_scan_symbols(), Dir::Left).push((from, Star, to, Star, Dir::Right))
}

/// No rule of the list is for one of the states.
pub open spec fn fresh_for(rules: Seq<Rule<State, Symbol>>, states: Set<State>) -> bool {
    forall|i: int| 0 <= i < rules.len() ==> !states.contains(#[trigger] rules[i].0)
}

/// `new` is `old` followed by rules for the given states only.
pub open spec fn grown_by(old: Seq<Rule<State, Symbol>>, new: Seq<Rule<State, Symbol>>, states: Set<State>) -> bool {
    &&& old.len() <= new.len()
    &&& forall|i: int| 0 <= i < old.len() ==> #[trigger] new[i] == old[i]
    &&& forall|i: int| old.len() <= i < new.len() ==> states.contains(#[trigger] new[i].0)
}

/// The symbols inside a rule: bits, marked bits, `|`, directions and `,`.
fn rule_internals() -> (r: Vec<Symbol>)
    ensures
        r@ == seq![Zero, One, X, Y, Pipe, L, R, Comma],
{
    vec![Zero, One, X, Y, Pipe, L, R, Comma]
}

/// Every symbol of the rules section.
fn rule_all() -> (r: Vec<Symbol>)
    ensures
        r@ == seq![Zero, One, X, Y, Pipe, L, R, Semi, Dot, Star, Comma, Gt],
{
    vec![Zero, One, X, Y, Pipe, L, R, Semi, Dot, Star, Comma, Gt]
}

fn bits() -> (r: Vec<Symbol>)
    ensures
        r@ == seq![Zero, One],
{
    vec![Zero, One]
}

fn marked_bits() -> (r: Vec<Symbol>)
    ensures
        r@ == seq![X, Y],
{
    vec![X, Y]
}

fn bits_and_marked() -> (r: Vec<Symbol>)
    ensures
        r@ == seq![Zero, One, X, Y],
{
    vec![Zero, One, X, Y]
}

/// A symbol group followed by more symbols.
fn with(base: &Vec<Symbol>, extra: Vec<Symbol>) -> (r: Vec<Symbol>)
    ensures
        r@ == base@ + extra@,
{
    let mut r = crate::tm::copy_vec(base);
    let mut extra = extra;
    r.append(&mut extra);
    r
}


/// The rules of a list are distinct in state and symbol, and all belong
/// to blocks before `k`.
pub open spec fn built_before(rules: Seq<Rule<State, Symbol>>, k: nat) -> bool {
    &&& keys_distinct(rules)
    &&& forall|i: int| 0 <= i < rules.len() ==> block_of(#[trigger] rules[i].0) < k
}

/// `acc` followed by the rules that `init_rules` adds, in order.
pub open spec fn init_rules_from(acc: Seq<Rule<State, Symbol>>) -> Seq<Rule<State, Symbol>> {
    let acc = acc.push((Init, Dollar, Init, Dollar, Dir::Right));
    let acc = acc + scan_rules(Init, seq![Zero, One, Semi], Dir::Right);
    let acc = acc.push((Init, Symbol::Hash, InitSkip, Symbol::Hash, Dir::Right));
    let acc = acc + scan_rules(InitSkip, seq![Zero, One], Dir::Right);
    let acc = acc.push((InitSkip, Symbol::Hash, InitSeekEnd, Symbol::Hash, Dir::Right));
    let s = InitSeekEnd;
    let syms = (seq![Zero, One, X, Y, Pipe, L, R, Comma] + seq![Semi, Dot, Gt]);
    let acc = acc + scan_rules(s, syms, Dir::Right);
    let acc = acc.push((s, Symbol::Hash, MarkRule, Symbol::Hash, Dir::Left));
    acc
}

/// PHASE 0: from `$`, skip the accepting states and the blank, then run
/// to the end of the rules.
fn init_rules(r: &mut RuleSet)
    requires
        built_before(old(r).rules@, 0),
    ensures
        built_before(final(r).rules@, 1),
        final(r).rules@ == init_rules_from(old(r).rules@),
{
    r.add(Init, Dollar, Init, Dollar, Dir::Right);
    // Scan right through ACCEPT content (bits, semicolons)
    scan_right(r, Init, &vec![Zero, One, Semi]);
    // Hit #[0] → skip BLANK
    r.add(Init, Symbol::Hash, InitSkip, Symbol::Hash, Dir::Right);
    // InitSkip: scan right through BLANK (bits)
    scan_right(r, InitSkip, &bits());
    // Hit #[1] → enter RULES section
    r.add(InitSkip, Symbol::Hash, InitSeekEnd, Symbol::Hash, Dir::Right);
    {
        let s = InitSeekEnd;
        let syms = with(&rule_internals(), vec![Semi, Dot, Gt]);
        scan_right(r, s, &syms);
        r.add(s, Symbol::Hash, MarkRule, Symbol::Hash, Dir::Left);
    }
}

/// `acc` followed by the rules that `mark_rule_rules` adds, in order.
pub open spec fn mark_rule_rules_from(acc: Seq<Rule<State, Symbol>>) -> Seq<Rule<State, Symbol>> {
    let mr = MarkRule;
    let acc = acc + scan_rules(mr, seq![Zero, One, X, Y, Pipe, L, R, Comma], Dir::Left);
    let acc = acc.push((mr, Semi, mr, Semi, Dir::Left));
    let acc = acc.push((mr, Dot, CmpStRead, Star, Dir::Right));
    let acc = acc.push((mr, Symbol::Hash, MarkRuleNoMatch, Symbol::Hash, Dir::Left));
    let acc = acc + seek_home_rules(MarkRuleNoMatch, ChkAccInit);
    acc
}

/// PHASE 1: search the rules from right to left for the next candidate
/// and mark its `.` with `*`.
fn mark_rule_rules(r: &mut RuleSet)
    requires
        built_before(old(r).rules@, 1),
    ensures
        built_before(final(r).rules@, 2),
        final(r).rules@ == mark_rule_rules_from(old(r).rules@),
{
    {
        let mr = MarkRule;
        scan_left(r, mr, &rule_internals());
        r.add(mr, Semi, mr, Semi, Dir::Left);
        r.add(mr, Dot, CmpStRead, Star, Dir::Right);
        // No more rules: seek home to check accept states
        r.add(mr, Symbol::Hash, MarkRuleNoMatch, Symbol::Hash, Dir::Left);
    }
    {
        // MarkRuleNoMatch: seek home (scan left to $) then enter ChkAccInit
        seek_home(r, MarkRuleNoMatch, ChkAccInit);
    }
}

/// `acc` followed by the rules that `compare_state_bit` adds, in order.
pub open spec fn compare_state_bit_from(acc: Seq<Rule<State, Symbol>>, c_sym: Symbol, carry: State, find: State) -> Seq<Rule<State, Symbol>> {
    let acc = acc + scan_rules(carry, seq![Zero, One, X, Y, Pipe, L, R, Semi, Dot, Star, Comma, Gt], Dir::Right);
    let acc = acc.push((carry, Symbol::Hash, find, Symbol::Hash, Dir::Right));
    let acc = acc + scan_rules(find, seq![X, Y], Dir::Right);
    let acc = if c_sym == Zero {
        let acc = acc.push((find, Zero, CmpStOk, X, Dir::Left));
        let acc = acc.push((find, One, CmpStFail, Y, Dir::Left));
        acc
    } else {
        let acc = acc.push((find, One, CmpStOk, Y, Dir::Left));
        let acc = acc.push((find, Zero, CmpStFail, X, Dir::Left));
        acc
    };
    acc
}

/// PHASE 2 for one bit value: carry the bit to the state section and
/// compare it with the next unmarked bit there.
fn compare_state_bit(r: &mut RuleSet, c_sym: Symbol, carry: State, find: State)
    requires
        keys_distinct(old(r).rules@),
        carry != find,
        fresh_for(old(r).rules@, set![carry, find]),
    ensures
        keys_distinct(final(r).rules@),
        grown_by(old(r).rules@, final(r).rules@, set![carry, find]),
        final(r).rules@ == compare_state_bit_from(old(r).rules@, c_sym, carry, find),
{
    scan_right(r, carry, &rule_all());
    r.add(carry, Symbol::Hash, find, Symbol::Hash, Dir::Right);

    scan_right(r, find, &marked_bits());
    if c_sym == Zero {
        r.add(find, Zero, CmpStOk, X, Dir::Left);
        r.add(find, One, CmpStFail, Y, Dir::Left);
    } else {
        r.add(find, One, CmpStOk, Y, Dir::Left);
        r.add(find, Zero, CmpStFail, X, Dir::Left);
    }
}

/// `acc` followed by the rules that `compare_state_rules` adds, in order.
pub open spec fn compare_state_rules_from(acc: Seq<Rule<State, Symbol>>) -> Seq<Rule<State, Symbol>> {
    let acc = acc.push((CmpStRead, Zero, CmpStC0, X, Dir::Right));
    let acc = acc.push((CmpStRead, One, CmpStC1, Y, Dir::Right));
    let acc = acc.push((CmpStRead, Pipe, StMatchCleanup, Pipe, Dir::Right));
    let acc = acc.push((CmpStRead, Comma, StMatchCleanup, Comma, Dir::Right));
    let acc = compare_state_bit_from(acc, Zero, CmpStC0, CmpStC0Find);
    let acc = compare_state_bit_from(acc, One, CmpStC1, CmpStC1Find);
    acc
}

/// PHASE 2: compare the marked rule's state bits with the current state.
fn compare_state_rules(r: &mut RuleSet)
    requires
        built_before(old(r).rules@, 2),
    ensures
        built_before(final(r).rules@, 3),
        final(r).rules@ == compare_state_rules_from(old(r).rules@),
{
    r.add(CmpStRead, Zero, CmpStC0, X, Dir::Right);
    r.add(CmpStRead, One, CmpStC1, Y, Dir::Right);
    r.add(CmpStRead, Pipe, StMatchCleanup, Pipe, Dir::Right);
    r.add(CmpStRead, Comma, StMatchCleanup, Comma, Dir::Right);

    compare_state_bit(r, Zero, CmpStC0, CmpStC0Find);
    compare_state_bit(r, One, CmpStC1, CmpStC1Find);
}

/// `acc` followed by the rules that `state_bit_matched_rules` adds, in order.
pub open spec fn state_bit_matched_rules_from(acc: Seq<Rule<State, Symbol>>) -> Seq<Rule<State, Symbol>> {
    let acc = acc + seek_star_rules(CmpStOk, CmpStNextbit);
    let nb = CmpStNextbit;
    let acc = acc + scan_rules(nb, seq![X, Y], Dir::Right);
    let acc = acc.push((nb, Zero, CmpStC0, X, Dir::Right));
    let acc = acc.push((nb, One, CmpStC1, Y, Dir::Right));
    let acc = acc.push((nb, Pipe, StMatchCleanup, Pipe, Dir::Right));
    let acc = acc.push((nb, Comma, StMatchCleanup, Comma, Dir::Right));
    acc
}

/// Bit matched: return to `*` to read the next bit.
fn state_bit_matched_rules(r: &mut RuleSet)
    requires
        built_before(old(r).rules@, 3),
    ensures
        built_before(final(r).rules@, 4),
        final(r).rules@ == state_bit_matched_rules_from(old(r).rules@),
{
    seek_star(r, CmpStOk, CmpStNextbit);
    let nb = CmpStNextbit;
    scan_right(r, nb, &marked_bits());
    r.add(nb, Zero, CmpStC0, X, Dir::Right);
    r.add(nb, One, CmpStC1, Y, Dir::Right);
    r.add(nb, Pipe, StMatchCleanup, Pipe, Dir::Right);
    r.add(nb, Comma, StMatchCleanup, Comma, Dir::Right);
}

/// `acc` followed by the rules that `state_match_cleanup_rules` adds, in order.
pub open spec fn state_match_cleanup_rules_from(acc: Seq<Rule<State, Symbol>>) -> Seq<Rule<State, Symbol>> {
    let smc = StMatchCleanup;
    let acc = acc.push((smc, Zero, StmGoLeft, Zero, Dir::Left));
    let acc = acc.push((smc, One, StmGoLeft, One, Dir::Left));
    let acc = acc.push((smc, Pipe, StmGoLeft, Pipe, Dir::Left));
    let gl = StmGoLeft;
    let acc = acc.push((gl, Pipe, StmRestoreRule, Pipe, Dir::Left));
    let acc = acc.push((gl, Comma, StmRestoreRule, Comma, Dir::Left));
    let acc = acc + scan_rules(gl, seq![Zero, One], Dir::Left);
    let rr = StmRestoreRule;
    let acc = acc.push((rr, X, rr, Zero, Dir::Left));
    let acc = acc.push((rr, Y, rr, One, Dir::Left));
    let acc = acc + scan_rules(rr, seq![Zero, One], Dir::Left);
    let acc = acc.push((rr, Star, StmGotoState, Star, Dir::Right));
    acc
}

/// STATE MATCH CLEANUP, first part: restore the rule's state bits.
fn state_match_cleanup_rules(r: &mut RuleSet)
    requires
        built_before(old(r).rules@, 4),
    ensures
        built_before(final(r).rules@, 5),
        final(r).rules@ == state_match_cleanup_rules_from(old(r).rules@),
{
    {
        let smc = StMatchCleanup;
        r.add(smc, Zero, StmGoLeft, Zero, Dir::Left);
        r.add(smc, One, StmGoLeft, One, Dir::Left);
        r.add(smc, Pipe, StmGoLeft, Pipe, Dir::Left);
    }
    {
        let gl = StmGoLeft;
        r.add(gl, Pipe, StmRestoreRule, Pipe, Dir::Left);
        r.add(gl, Comma, StmRestoreRule, Comma, Dir::Left);
        scan_left(r, gl, &bits());
    }
    {
        let rr = StmRestoreRule;
        r.add(rr, X, rr, Zero, Dir::Left);
        r.add(rr, Y, rr, One, Dir::Left);
        scan_left(r, rr, &bits());
        r.add(rr, Star, StmGotoState, Star, Dir::Right);
    }
}

/// `acc` followed by the rules that `state_match_restore_rules` adds, in order.
pub open spec fn state_match_restore_rules_from(acc: Seq<Rule<State, Symbol>>) -> Seq<Rule<State, Symbol>> {
    let gs = StmGotoState;
    let syms = (seq![Zero, One, X, Y, Pipe, L, R, Comma] + seq![Semi, Dot, Gt]);
    let acc = acc + scan_rules(gs, syms, Dir::Right);
    let acc = acc.push((gs, Symbol::Hash, StmRestoreState, Symbol::Hash, Dir::Right));
    let rs = StmRestoreState;
    let acc = acc.push((rs, X, rs, Zero, Dir::Right));
    let acc = acc.push((rs, Y, rs, One, Dir::Right));
    let acc = acc + scan_rules(rs, seq![Zero, One], Dir::Right);
    let acc = acc.push((rs, Symbol::Hash, StmBackToRule, Symbol::Hash, Dir::Left));
    let acc = acc + seek_star_rules(StmBackToRule, SymSkipState);
    let ss = SymSkipState;
    let acc = acc + scan_rules(ss, seq![Zero, One], Dir::Right);
    let acc = acc.push((ss, Pipe, CmpSymRead, Pipe, Dir::Right));
    let acc = acc.push((ss, Comma, CmpSymRead, Caret, Dir::Right));
    acc
}

/// STATE MATCH CLEANUP, second part: restore the state section, then go
/// on to the rule's symbol.
fn state_match_restore_rules(r: &mut RuleSet)
    requires
        built_before(old(r).rules@, 5),
    ensures
        built_before(final(r).rules@, 6),
        final(r).rules@ == state_match_restore_rules_from(old(r).rules@),
{
    {
        let gs = StmGotoState;
        let syms = with(&rule_internals(), vec![Semi, Dot, Gt]);
        scan_right(r, gs, &syms);
        r.add(gs, Symbol::Hash, StmRestoreState, Symbol::Hash, Dir::Right);
    }
    {
        let rs = StmRestoreState;
        r.add(rs, X, rs, Zero, Dir::Right);
        r.add(rs, Y, rs, One, Dir::Right);
        scan_right(r, rs, &bits());
        r.add(rs, Symbol::Hash, StmBackToRule, Symbol::Hash, Dir::Left);
    }
    {
        seek_star(r, StmBackToRule, SymSkipState);
    }
    {
        let ss = SymSkipState;
        scan_right(r, ss, &bits());
        r.add(ss, Pipe, CmpSymRead, Pipe, Dir::Right);
        // Noop rule: mark first comma as Caret to track current alternative
        r.add(ss, Comma, CmpSymRead, Caret, Dir::Right);
    }
}

/// `acc` followed by the rules that `state_mismatch_rules` adds, in order.
pub open spec fn state_mismatch_rules_from(acc: Seq<Rule<State, Symbol>>) -> Seq<Rule<State, Symbol>> {
    let sf = CmpStFail;
    let acc = acc + scan_rules(sf, seq![Zero, One, X, Y], Dir::Left);
    let acc = acc.push((sf, Symbol::Hash, StfRestoreState, Symbol::Hash, Dir::Right));
    let rs = StfRestoreState;
    let acc = acc.push((rs, X, rs, Zero, Dir::Right));
    let acc = acc.push((rs, Y, rs, One, Dir::Right));
    let acc = acc + scan_rules(rs, seq![Zero, One], Dir::Right);
    let acc = acc.push((rs, Symbol::Hash, StfFindStar, Symbol::Hash, Dir::Left));
    let syms = (seq![Zero, One, X, Y] + seq![Semi, Symbol::Hash, Pipe, Dot, L, R, Comma, Gt]);
    let acc = acc + scan_rules(StfFindStar, syms, Dir::Left);
    let acc = acc.push((StfFindStar, Star, StfRestoreRule, Dot, Dir::Right));
    let rr = StfRestoreRule;
    let acc = acc.push((rr, X, rr, Zero, Dir::Right));
    let acc = acc.push((rr, Y, rr, One, Dir::Right));
    let acc = acc + scan_rules(rr, seq![Zero, One], Dir::Right);
    let acc = acc.push((rr, Pipe, StfGoPrev, Pipe, Dir::Left));
    let acc = acc.push((rr, Comma, StfGoPrev, Comma, Dir::Left));
    let gp = StfGoPrev;
    let acc = acc + scan_rules(gp, seq![Zero, One], Dir::Left);
    let acc = acc.push((gp, Dot, MarkRule, Dot, Dir::Left));
    acc
}

/// STATE MISMATCH: restore both sides and try the rule to the left.
fn state_mismatch_rules(r: &mut RuleSet)
    requires
        built_before(old(r).rules@, 6),
    ensures
        built_before(final(r).rules@, 7),
        final(r).rules@ == state_mismatch_rules_from(old(r).rules@),
{
    {
        let sf = CmpStFail;
        scan_left(r, sf, &bits_and_marked());
        r.add(sf, Symbol::Hash, StfRestoreState, Symbol::Hash, Dir::Right);
    }
    {
        let rs = StfRestoreState;
        r.add(rs, X, rs, Zero, Dir::Right);
        r.add(rs, Y, rs, One, Dir::Right);
        scan_right(r, rs, &bits());
        r.add(rs, Symbol::Hash, StfFindStar, Symbol::Hash, Dir::Left);
    }
    {
        let syms = with(&bits_and_marked(), vec![Semi, Symbol::Hash, Pipe, Dot, L, R, Comma, Gt]);
        scan_left(r, StfFindStar, &syms);
        r.add(StfFindStar, Star, StfRestoreRule, Dot, Dir::Right);
    }
    {
        let rr = StfRestoreRule;
        r.add(rr, X, rr, Zero, Dir::Right);
        r.add(rr, Y, rr, One, Dir::Right);
        scan_right(r, rr, &bits());
        r.add(rr, Pipe, StfGoPrev, Pipe, Dir::Left);
        r.add(rr, Comma, StfGoPrev, Comma, Dir::Left);
    }
    {
        let gp = StfGoPrev;
        scan_left(r, gp, &bits());
        r.add(gp, Dot, MarkRule, Dot, Dir::Left);
    }
}

/// `acc` followed by the rules that `compare_symbol_bit` adds, in order.
pub open spec fn compare_symbol_bit_from(acc: Seq<Rule<State, Symbol>>, c: u8, carry: State, s1: State, fh: State, fb: State) -> Seq<Rule<State, Symbol>> {
    let acc = acc + scan_rules(carry, seq![Zero, One, X, Y, Pipe, L, R, Semi, Dot, Star, Comma, Gt], Dir::Right);
    let acc = acc.push((carry, Symbol::Hash, s1, Symbol::Hash, Dir::Right));
    let acc = acc + scan_rules(s1, seq![Zero, One, X, Y], Dir::Right);
    let acc = acc.push((s1, Symbol::Hash, fh, Symbol::Hash, Dir::Right));
    let syms = (seq![Zero, One, X, Y] + seq![Comma]);
    let acc = acc + scan_rules(fh, syms, Dir::Right);
    let acc = acc.push((fh, Caret, fb, Caret, Dir::Right));
    let acc = acc + scan_rules(fb, seq![X, Y], Dir::Right);
    let acc = if c == 0 {
        let acc = acc.push((fb, Zero, CmpSymOk, X, Dir::Left));
        let acc = acc.push((fb, One, CmpSymFail, Y, Dir::Left));
        acc
    } else {
        let acc = acc.push((fb, One, CmpSymOk, Y, Dir::Left));
        let acc = acc.push((fb, Zero, CmpSymFail, X, Dir::Left));
        acc
    };
    acc
}

/// PHASE 3 for one bit value: carry the bit to the head cell and compare
/// it with the next unmarked bit there.
fn compare_symbol_bit(r: &mut RuleSet, c: u8, carry: State, s1: State, fh: State, fb: State)
    requires
        keys_distinct(old(r).rules@),
        carry != s1 && carry != fh && carry != fb && s1 != fh && s1 != fb && fh != fb,
        fresh_for(old(r).rules@, set![carry, s1, fh, fb]),
    ensures
        keys_distinct(final(r).rules@),
        grown_by(old(r).rules@, final(r).rules@, set![carry, s1, fh, fb]),
        final(r).rules@ == compare_symbol_bit_from(old(r).rules@, c, carry, s1, fh, fb),
{
    // Skip rest of rules to #[2]
    scan_right(r, carry, &rule_all());
    r.add(carry, Symbol::Hash, s1, Symbol::Hash, Dir::Right);

    // Skip STATE to #[3]
    scan_right(r, s1, &bits_and_marked());
    r.add(s1, Symbol::Hash, fh, Symbol::Hash, Dir::Right);

    // Find ^ in TAPE
    {
        let syms = with(&bits_and_marked(), vec![Comma]);
        scan_right(r, fh, &syms);
        r.add(fh, Caret, fb, Caret, Dir::Right);
    }

    // Find next unmarked bit in head cell
    scan_right(r, fb, &marked_bits());
    if c == 0 {
        r.add(fb, Zero, CmpSymOk, X, Dir::Left);
        r.add(fb, One, CmpSymFail, Y, Dir::Left);
    } else {
        r.add(fb, One, CmpSymOk, Y, Dir::Left);
        r.add(fb, Zero, CmpSymFail, X, Dir::Left);
    }
}

/// `acc` followed by the rules that `compare_symbol_rules` adds, in order.
pub open spec fn compare_symbol_rules_from(acc: Seq<Rule<State, Symbol>>) -> Seq<Rule<State, Symbol>> {
    let acc = acc.push((CmpSymRead, Zero, CmpSymC0, X, Dir::Right));
    let acc = acc.push((CmpSymRead, One, CmpSymC1, Y, Dir::Right));
    let acc = acc.push((CmpSymRead, Pipe, SymMatchCleanup, Pipe, Dir::Right));
    let acc = compare_symbol_bit_from(acc, 0, CmpSymC0, CmpSymC0S1, CmpSymC0Fh, CmpSymC0Fb);
    let acc = compare_symbol_bit_from(acc, 1, CmpSymC1, CmpSymC1S1, CmpSymC1Fh, CmpSymC1Fb);
    acc
}

/// PHASE 3: compare the marked rule's symbol bits with the head cell.
fn compare_symbol_rules(r: &mut RuleSet)
    requires
        built_before(old(r).rules@, 7),
    ensures
        built_before(final(r).rules@, 8),
        final(r).rules@ == compare_symbol_rules_from(old(r).rules@),
{
    r.add(CmpSymRead, Zero, CmpSymC0, X, Dir::Right);
    r.add(CmpSymRead, One, CmpSymC1, Y, Dir::Right);
    r.add(CmpSymRead, Pipe, SymMatchCleanup, Pipe, Dir::Right);

    compare_symbol_bit(r, 0, CmpSymC0, CmpSymC0S1, CmpSymC0Fh, CmpSymC0Fb);
    compare_symbol_bit(r, 1, CmpSymC1, CmpSymC1S1, CmpSymC1Fh, CmpSymC1Fb);
}

/// `acc` followed by the rules that `symbol_bit_matched_rules` adds, in order.
pub open spec fn symbol_bit_matched_rules_from(acc: Seq<Rule<State, Symbol>>) -> Seq<Rule<State, Symbol>> {
    let acc = acc + seek_star_rules(CmpSymOk, CmpSymNextbit);
    let nb = CmpSymNextbit;
    let acc = acc + scan_rules(nb, seq![Zero, One, Comma], Dir::Right);
    let acc = acc.push((nb, Pipe, CmpSymNb2, Pipe, Dir::Right));
    let acc = acc.push((nb, Caret, NpNextbit, Caret, Dir::Right));
    let nb2 = CmpSymNb2;
    let acc = acc + scan_rules(nb2, seq![X, Y], Dir::Right);
    let acc = acc.push((nb2, Zero, CmpSymC0, X, Dir::Right));
    let acc = acc.push((nb2, One, CmpSymC1, Y, Dir::Right));
    let acc = acc.push((nb2, Pipe, SymMatchCleanup, Pipe, Dir::Right));
    let np = NpNextbit;
    let acc = acc + scan_rules(np, seq![X, Y], Dir::Right);
    let acc = acc.push((np, Zero, CmpSymC0, X, Dir::Right));
    let acc = acc.push((np, One, CmpSymC1, Y, Dir::Right));
    let acc = acc.push((np, Comma, NpMatchPre, Comma, Dir::Left));
    let acc = acc.push((np, Pipe, NpMatchPre, Pipe, Dir::Left));
    let mp = NpMatchPre;
    let acc = acc + scan_rules(mp, seq![X, Y], Dir::Left);
    let acc = acc.push((mp, Caret, SymMatchCleanup, Comma, Dir::Right));
    acc
}

/// Symbol bit matched: return to `*` to read the next bit; a noop group
/// goes on with its current alternative.
fn symbol_bit_matched_rules(r: &mut RuleSet)
    requires
        built_before(old(r).rules@, 8),
    ensures
        built_before(final(r).rules@, 9),
        final(r).rules@ == symbol_bit_matched_rules_from(old(r).rules@),
{
    {
        seek_star(r, CmpSymOk, CmpSymNextbit);
        let nb = CmpSymNextbit;
        // For noop rules, scan past commas between alternatives to reach Caret
        scan_right(r, nb, &vec![Zero, One, Comma]);
        r.add(nb, Pipe, CmpSymNb2, Pipe, Dir::Right);
        // Noop: caret marks current alternative
        r.add(nb, Caret, NpNextbit, Caret, Dir::Right);
    }
    {
        let nb2 = CmpSymNb2;
        scan_right(r, nb2, &marked_bits());
        r.add(nb2, Zero, CmpSymC0, X, Dir::Right);
        r.add(nb2, One, CmpSymC1, Y, Dir::Right);
        r.add(nb2, Pipe, SymMatchCleanup, Pipe, Dir::Right);
    }
    // ── Noop: NpNextbit - skip marked bits, read next bit or end-of-symbol
    {
        let np = NpNextbit;
        scan_right(r, np, &marked_bits());
        r.add(np, Zero, CmpSymC0, X, Dir::Right);
        r.add(np, One, CmpSymC1, Y, Dir::Right);
        // End of current noop symbol: all bits matched!
        r.add(np, Comma, NpMatchPre, Comma, Dir::Left);
        r.add(np, Pipe, NpMatchPre, Pipe, Dir::Left);
    }
    // ── Noop match: scan left to Caret, restore to Comma, enter SymMatchCleanup
    {
        let mp = NpMatchPre;
        scan_left(r, mp, &marked_bits());
        r.add(mp, Caret, SymMatchCleanup, Comma, Dir::Right);
    }
}

/// `acc` followed by the rules that `symbol_mismatch_rules` adds, in order.
pub open spec fn symbol_mismatch_rules_from(acc: Seq<Rule<State, Symbol>>) -> Seq<Rule<State, Symbol>> {
    let sf = CmpSymFail;
    let acc = acc + scan_rules(sf, seq![Zero, One, X, Y], Dir::Left);
    let acc = acc.push((sf, Caret, SymfRestHead, Caret, Dir::Right));
    let rh = SymfRestHead;
    let acc = acc.push((rh, X, rh, Zero, Dir::Right));
    let acc = acc.push((rh, Y, rh, One, Dir::Right));
    let acc = acc + scan_rules(rh, seq![Zero, One], Dir::Right);
    let acc = acc.push((rh, Comma, SymfSeekStar, Comma, Dir::Left));
    let acc = acc.push((rh, Blank, SymfSeekStar, Blank, Dir::Left));
    let acc = acc + seek_star_rules(SymfSeekStar, SymfSkipSt);
    let ss = SymfSkipSt;
    let acc = acc + scan_rules(ss, seq![Zero, One, Comma], Dir::Right);
    let acc = acc.push((ss, Pipe, SymfRestSym, Pipe, Dir::Right));
    let acc = acc.push((ss, Caret, NpSymfRestore, Comma, Dir::Right));
    acc
}

/// SYMBOL MISMATCH, first part: restore the head cell and go back to the
/// marked rule.
fn symbol_mismatch_rules(r: &mut RuleSet)
    requires
        built_before(old(r).rules@, 9),
    ensures
        built_before(final(r).rules@, 10),
        final(r).rules@ == symbol_mismatch_rules_from(old(r).rules@),
{
    {
        let sf = CmpSymFail;
        scan_left(r, sf, &bits_and_marked());
        r.add(sf, Caret, SymfRestHead, Caret, Dir::Right);
    }
    {
        let rh = SymfRestHead;
        r.add(rh, X, rh, Zero, Dir::Right);
        r.add(rh, Y, rh, One, Dir::Right);
        scan_right(r, rh, &bits());
        r.add(rh, Comma, SymfSeekStar, Comma, Dir::Left);
        r.add(rh, Blank, SymfSeekStar, Blank, Dir::Left);
    }
    {
        seek_star(r, SymfSeekStar, SymfSkipSt);
    }
    {
        let ss = SymfSkipSt;
        // For noop rules, scan past commas to reach Caret (current alternative marker)
        scan_right(r, ss, &vec![Zero, One, Comma]);
        r.add(ss, Pipe, SymfRestSym, Pipe, Dir::Right);
        // Noop: found current alternative marker
        r.add(ss, Caret, NpSymfRestore, Comma, Dir::Right);
    }
}

/// `acc` followed by the rules that `symbol_mismatch_restore_rules` adds, in order.
pub open spec fn symbol_mismatch_restore_rules_from(acc: Seq<Rule<State, Symbol>>) -> Seq<Rule<State, Symbol>> {
    let nr = NpSymfRestore;
    let acc = acc.push((nr, X, nr, Zero, Dir::Right));
    let acc = acc.push((nr, Y, nr, One, Dir::Right));
    let acc = acc + scan_rules(nr, seq![Zero, One], Dir::Right);
    let acc = acc.push((nr, Comma, CmpSymRead, Caret, Dir::Right));
    let acc = acc.push((nr, Pipe, SymfDeactivate, Pipe, Dir::Left));
    let rs = SymfRestSym;
    let acc = acc.push((rs, X, rs, Zero, Dir::Right));
    let acc = acc.push((rs, Y, rs, One, Dir::Right));
    let acc = acc + scan_rules(rs, seq![Zero, One], Dir::Right);
    let acc = acc.push((rs, Pipe, SymfDeactivate, Pipe, Dir::Left));
    let da = SymfDeactivate;
    let syms = (seq![Zero, One] + seq![Pipe, Comma]);
    let acc = acc + scan_rules(da, syms, Dir::Left);
    let acc = acc.push((da, Star, MarkRule, Dot, Dir::Left));
    acc
}

/// SYMBOL MISMATCH, second part: try the next alternative of a noop
/// group, or restore the rule's symbol and deactivate the rule.
fn symbol_mismatch_restore_rules(r: &mut RuleSet)
    requires
        built_before(old(r).rules@, 10),
    ensures
        built_before(final(r).rules@, 11),
        final(r).rules@ == symbol_mismatch_restore_rules_from(old(r).rules@),
{
    // ── Noop mismatch: restore current alt marks, try next or deactivate
    {
        let nr = NpSymfRestore;
        r.add(nr, X, nr, Zero, Dir::Right);
        r.add(nr, Y, nr, One, Dir::Right);
        scan_right(r, nr, &bits());
        // Next alternative: mark comma as caret, re-enter symbol comparison
        r.add(nr, Comma, CmpSymRead, Caret, Dir::Right);
        // No more alternatives: deactivate rule
        r.add(nr, Pipe, SymfDeactivate, Pipe, Dir::Left);
    }
    {
        let rs = SymfRestSym;
        r.add(rs, X, rs, Zero, Dir::Right);
        r.add(rs, Y, rs, One, Dir::Right);
        scan_right(r, rs, &bits());
        r.add(rs, Pipe, SymfDeactivate, Pipe, Dir::Left);
    }
    {
        let da = SymfDeactivate;
        let syms = with(&bits(), vec![Pipe, Comma]);
        scan_left(r, da, &syms);
        r.add(da, Star, MarkRule, Dot, Dir::Left);
    }
}

/// `acc` followed by the rules that `symbol_match_cleanup_rules` adds, in order.
pub open spec fn symbol_match_cleanup_rules_from(acc: Seq<Rule<State, Symbol>>) -> Seq<Rule<State, Symbol>> {
    let sc = SymMatchCleanup;
    let syms = (seq![Zero, One, X, Y, Pipe, L, R, Comma] + seq![Semi, Dot, Gt]);
    let acc = acc + scan_rules(sc, syms, Dir::Right);
    let acc = acc.push((sc, Symbol::Hash, SmcS1, Symbol::Hash, Dir::Right));
    let s1 = SmcS1;
    let acc = acc + scan_rules(s1, seq![Zero, One, X, Y], Dir::Right);
    let acc = acc.push((s1, Symbol::Hash, SmcFh, Symbol::Hash, Dir::Right));
    let fh = SmcFh;
    let syms = (seq![Zero, One, X, Y] + seq![Comma]);
    let acc = acc + scan_rules(fh, syms, Dir::Right);
    let acc = acc.push((fh, Caret, SmcRestHead, Caret, Dir::Right));
    let rh = SmcRestHead;
    let acc = acc.push((rh, X, rh, Zero, Dir::Right));
    let acc = acc.push((rh, Y, rh, One, Dir::Right));
    let acc = acc + scan_rules(rh, seq![Zero, One], Dir::Right);
    let acc = acc.push((rh, Comma, SmcRestDone, Comma, Dir::Left));
    let acc = acc.push((rh, Blank, SmcRestDone, Blank, Dir::Left));
    acc
}

/// SYMBOL MATCH CLEANUP, first part: restore the head cell.
fn symbol_match_cleanup_rules(r: &mut RuleSet)
    requires
        built_before(old(r).rules@, 11),
    ensures
        built_before(final(r).rules@, 12),
        final(r).rules@ == symbol_match_cleanup_rules_from(old(r).rules@),
{
    {
        let sc = SymMatchCleanup;
        let syms = with(&rule_internals(), vec![Semi, Dot, Gt]);
        scan_right(r, sc, &syms);
        r.add(sc, Symbol::Hash, SmcS1, Symbol::Hash, Dir::Right);
    }
    {
        // SmcS1: skip STATE to #[3]
        let s1 = SmcS1;
        scan_right(r, s1, &bits_and_marked());
        r.add(s1, Symbol::Hash, SmcFh, Symbol::Hash, Dir::Right);
    }
    {
        // SmcFh: find ^ in TAPE
        let fh = SmcFh;
        let syms = with(&bits_and_marked(), vec![Comma]);
        scan_right(r, fh, &syms);
        r.add(fh, Caret, SmcRestHead, Caret, Dir::Right);
    }
    {
        // SmcRestHead: restore head cell marks
        let rh = SmcRestHead;
        r.add(rh, X, rh, Zero, Dir::Right);
        r.add(rh, Y, rh, One, Dir::Right);
        scan_right(r, rh, &bits());
        r.add(rh, Comma, SmcRestDone, Comma, Dir::Left);
        r.add(rh, Blank, SmcRestDone, Blank, Dir::Left);
    }
}

/// `acc` followed by the rules that `symbol_match_restore_rules` adds, in order.
pub open spec fn symbol_match_restore_rules_from(acc: Seq<Rule<State, Symbol>>) -> Seq<Rule<State, Symbol>> {
    let acc = acc + seek_star_rules(SmcRestDone, SmcSkipSt);
    let ss = SmcSkipSt;
    let acc = acc + scan_rules(ss, seq![Zero, One], Dir::Right);
    let acc = acc.push((ss, Pipe, SmcRestSym, Pipe, Dir::Right));
    let acc = acc.push((ss, Comma, NpSmcHandler, Comma, Dir::Right));
    let h = NpSmcHandler;
    let acc = acc.push((h, X, h, Zero, Dir::Right));
    let acc = acc.push((h, Y, h, One, Dir::Right));
    let acc = acc + scan_rules(h, seq![Zero, One, Comma], Dir::Right);
    let acc = acc.push((h, Pipe, NpReadDir, Pipe, Dir::Right));
    let acc = acc.push((NpReadDir, L, MoveLeft, L, Dir::Left));
    let acc = acc.push((NpReadDir, R, MoveRight, R, Dir::Left));
    let rs = SmcRestSym;
    let acc = acc.push((rs, X, rs, Zero, Dir::Right));
    let acc = acc.push((rs, Y, rs, One, Dir::Right));
    let acc = acc + scan_rules(rs, seq![Zero, One], Dir::Right);
    let acc = acc.push((rs, Pipe, ApplyReadNst, Pipe, Dir::Right));
    acc
}

/// SYMBOL MATCH CLEANUP, second part: restore the rule's symbol, then read
/// the new state, or for a noop group go straight to the direction.
fn symbol_match_restore_rules(r: &mut RuleSet)
    requires
        built_before(old(r).rules@, 12),
    ensures
        built_before(final(r).rules@, 13),
        final(r).rules@ == symbol_match_restore_rules_from(old(r).rules@),
{
    {
        seek_star(r, SmcRestDone, SmcSkipSt);
    }
    {
        let ss = SmcSkipSt;
        scan_right(r, ss, &bits());
        r.add(ss, Pipe, SmcRestSym, Pipe, Dir::Right);
        // Noop: after cleanup, skip all symbol alternatives to direction
        r.add(ss, Comma, NpSmcHandler, Comma, Dir::Right);
    }
    // ── Noop post-match: restore marks, skip to | and read direction
    {
        let h = NpSmcHandler;
        r.add(h, X, h, Zero, Dir::Right);
        r.add(h, Y, h, One, Dir::Right);
        scan_right(r, h, &vec![Zero, One, Comma]);
        r.add(h, Pipe, NpReadDir, Pipe, Dir::Right);
    }
    {
        r.add(NpReadDir, L, MoveLeft, L, Dir::Left);
        r.add(NpReadDir, R, MoveRight, R, Dir::Left);
    }
    {
        let rs = SmcRestSym;
        r.add(rs, X, rs, Zero, Dir::Right);
        r.add(rs, Y, rs, One, Dir::Right);
        scan_right(r, rs, &bits());
        r.add(rs, Pipe, ApplyReadNst, Pipe, Dir::Right);
    }
}

/// `acc` followed by the rules that `copy_state_bit` adds, in order.
pub open spec fn copy_state_bit_from(acc: Seq<Rule<State, Symbol>>, carry: State, w: State, mark: Symbol) -> Seq<Rule<State, Symbol>> {
    let acc = acc + scan_rules(carry, seq![Zero, One, X, Y, Pipe, L, R, Semi, Dot, Star, Comma, Gt], Dir::Right);
    let acc = acc.push((carry, Symbol::Hash, w, Symbol::Hash, Dir::Right));
    let acc = acc + scan_rules(w, seq![X, Y], Dir::Right);
    let acc = acc.push((w, Zero, CpNstRet, mark, Dir::Left));
    let acc = acc.push((w, One, CpNstRet, mark, Dir::Left));
    acc
}

/// PHASE 4 for one bit value: carry the bit of the new state into the
/// state section.
fn copy_state_bit(r: &mut RuleSet, carry: State, w: State, mark: Symbol)
    requires
        keys_distinct(old(r).rules@),
        carry != w,
        fresh_for(old(r).rules@, set![carry, w]),
    ensures
        keys_distinct(final(r).rules@),
        grown_by(old(r).rules@, final(r).rules@, set![carry, w]),
        final(r).rules@ == copy_state_bit_from(old(r).rules@, carry, w, mark),
{
    // Skip rules+accept to #[1], then directly in STATE
    scan_right(r, carry, &rule_all());
    r.add(carry, Symbol::Hash, w, Symbol::Hash, Dir::Right);

    scan_right(r, w, &marked_bits());
    r.add(w, Zero, CpNstRet, mark, Dir::Left);
    r.add(w, One, CpNstRet, mark, Dir::Left);
}

/// `acc` followed by the rules that `copy_state_rules` adds, in order.
pub open spec fn copy_state_rules_from(acc: Seq<Rule<State, Symbol>>) -> Seq<Rule<State, Symbol>> {
    let acc = acc.push((ApplyReadNst, Zero, CpNstC0, X, Dir::Right));
    let acc = acc.push((ApplyReadNst, One, CpNstC1, Y, Dir::Right));
    let acc = acc.push((ApplyReadNst, Pipe, CpNstDone, Pipe, Dir::Left));
    let acc = copy_state_bit_from(acc, CpNstC0, CpNstC0W, X);
    let acc = copy_state_bit_from(acc, CpNstC1, CpNstC1W, Y);
    acc
}

/// PHASE 4: copy the new state bits of the matched rule into the state
/// section.
fn copy_state_rules(r: &mut RuleSet)
    requires
        built_before(old(r).rules@, 13),
    ensures
        built_before(final(r).rules@, 14),
        final(r).rules@ == copy_state_rules_from(old(r).rules@),
{
    r.add(ApplyReadNst, Zero, CpNstC0, X, Dir::Right);
    r.add(ApplyReadNst, One, CpNstC1, Y, Dir::Right);
    r.add(ApplyReadNst, Pipe, CpNstDone, Pipe, Dir::Left);

    copy_state_bit(r, CpNstC0, CpNstC0W, X);
    copy_state_bit(r, CpNstC1, CpNstC1W, Y);
}

/// `acc` followed by the rules that `copy_state_next_rules` adds, in order.
pub open spec fn copy_state_next_rules_from(acc: Seq<Rule<State, Symbol>>) -> Seq<Rule<State, Symbol>> {
    let acc = acc + seek_star_rules(CpNstRet, CpNstNext);
    let n = CpNstNext;
    let acc = acc + scan_rules(n, seq![Zero, One], Dir::Right);
    let acc = acc.push((n, Pipe, CpNstNext2, Pipe, Dir::Right));
    let n2 = CpNstNext2;
    let acc = acc + scan_rules(n2, seq![Zero, One], Dir::Right);
    let acc = acc.push((n2, Pipe, CpNstNext3, Pipe, Dir::Right));
    let n3 = CpNstNext3;
    let acc = acc + scan_rules(n3, seq![X, Y], Dir::Right);
    let acc = acc.push((n3, Zero, CpNstC0, X, Dir::Right));
    let acc = acc.push((n3, One, CpNstC1, Y, Dir::Right));
    let acc = acc.push((n3, Pipe, CpNstDone, Pipe, Dir::Left));
    acc
}

/// PHASE 4: go back to the next bit of the new state.
fn copy_state_next_rules(r: &mut RuleSet)
    requires
        built_before(old(r).rules@, 14),
    ensures
        built_before(final(r).rules@, 15),
        final(r).rules@ == copy_state_next_rules_from(old(r).rules@),
{
    {
        seek_star(r, CpNstRet, CpNstNext);
    }
    {
        let n = CpNstNext;
        scan_right(r, n, &bits());
        r.add(n, Pipe, CpNstNext2, Pipe, Dir::Right);
    }
    {
        let n2 = CpNstNext2;
        scan_right(r, n2, &bits());
        r.add(n2, Pipe, CpNstNext3, Pipe, Dir::Right);
    }
    {
        let n3 = CpNstNext3;
        scan_right(r, n3, &marked_bits());
        r.add(n3, Zero, CpNstC0, X, Dir::Right);
        r.add(n3, One, CpNstC1, Y, Dir::Right);
        r.add(n3, Pipe, CpNstDone, Pipe, Dir::Left);
    }
}

/// `acc` followed by the rules that `copy_state_done_rules` adds, in order.
pub open spec fn copy_state_done_rules_from(acc: Seq<Rule<State, Symbol>>) -> Seq<Rule<State, Symbol>> {
    let d = CpNstDone;
    let acc = acc.push((d, X, d, Zero, Dir::Left));
    let acc = acc.push((d, Y, d, One, Dir::Left));
    let acc = acc.push((d, Pipe, CpNstRestNav, Pipe, Dir::Right));
    let nav = CpNstRestNav;
    let syms = (seq![Zero, One, X, Y, Pipe, L, R, Comma] + seq![Semi, Dot, Gt]);
    let acc = acc + scan_rules(nav, syms, Dir::Right);
    let acc = acc.push((nav, Symbol::Hash, CpNstRestDo, Symbol::Hash, Dir::Right));
    let rd = CpNstRestDo;
    let acc = acc.push((rd, X, rd, Zero, Dir::Right));
    let acc = acc.push((rd, Y, rd, One, Dir::Right));
    let acc = acc + scan_rules(rd, seq![Zero, One], Dir::Right);
    let acc = acc.push((rd, Symbol::Hash, CpNsymSeek, Symbol::Hash, Dir::Left));
    let acc = acc + seek_star_rules(CpNsymSeek, CpNsymNav);
    acc
}

/// PHASE 4 done: restore the marks of the new state field.
fn copy_state_done_rules(r: &mut RuleSet)
    requires
        built_before(old(r).rules@, 15),
    ensures
        built_before(final(r).rules@, 16),
        final(r).rules@ == copy_state_done_rules_from(old(r).rules@),
{
    // cp_nst_done: restore marks
    {
        let d = CpNstDone;
        r.add(d, X, d, Zero, Dir::Left);
        r.add(d, Y, d, One, Dir::Left);
        r.add(d, Pipe, CpNstRestNav, Pipe, Dir::Right);
    }
    {
        let nav = CpNstRestNav;
        let syms = with(&rule_internals(), vec![Semi, Dot, Gt]);
        scan_right(r, nav, &syms);
        r.add(nav, Symbol::Hash, CpNstRestDo, Symbol::Hash, Dir::Right);
    }
    {
        let rd = CpNstRestDo;
        r.add(rd, X, rd, Zero, Dir::Right);
        r.add(rd, Y, rd, One, Dir::Right);
        scan_right(r, rd, &bits());
        r.add(rd, Symbol::Hash, CpNsymSeek, Symbol::Hash, Dir::Left);
    }
    {
        seek_star(r, CpNsymSeek, CpNsymNav);
    }
}

/// `acc` followed by the rules that `copy_symbol_nav_rules` adds, in order.
pub open spec fn copy_symbol_nav_rules_from(acc: Seq<Rule<State, Symbol>>) -> Seq<Rule<State, Symbol>> {
    let n = CpNsymNav;
    let acc = acc + scan_rules(n, seq![Zero, One], Dir::Right);
    let acc = acc.push((n, Pipe, CpNsymNav2, Pipe, Dir::Right));
    let n2 = CpNsymNav2;
    let acc = acc + scan_rules(n2, seq![Zero, One], Dir::Right);
    let acc = acc.push((n2, Pipe, CpNsymNav3, Pipe, Dir::Right));
    let n3 = CpNsymNav3;
    let acc = acc + scan_rules(n3, seq![Zero, One], Dir::Right);
    let acc = acc.push((n3, Pipe, CpNsymRead, Pipe, Dir::Right));
    let acc = acc.push((CpNsymRead, Zero, CpNsymC0, X, Dir::Right));
    let acc = acc.push((CpNsymRead, One, CpNsymC1, Y, Dir::Right));
    let acc = acc.push((CpNsymRead, Pipe, CpNsymDone, Pipe, Dir::Left));
    acc
}

/// PHASE 5: walk to the new symbol field of the matched rule.
fn copy_symbol_nav_rules(r: &mut RuleSet)
    requires
        built_before(old(r).rules@, 16),
    ensures
        built_before(final(r).rules@, 17),
        final(r).rules@ == copy_symbol_nav_rules_from(old(r).rules@),
{
    {
        let n = CpNsymNav;
        scan_right(r, n, &bits());
        r.add(n, Pipe, CpNsymNav2, Pipe, Dir::Right);
    }
    {
        let n2 = CpNsymNav2;
        scan_right(r, n2, &bits());
        r.add(n2, Pipe, CpNsymNav3, Pipe, Dir::Right);
    }
    {
        let n3 = CpNsymNav3;
        scan_right(r, n3, &bits());
        r.add(n3, Pipe, CpNsymRead, Pipe, Dir::Right);
    }

    r.add(CpNsymRead, Zero, CpNsymC0, X, Dir::Right);
    r.add(CpNsymRead, One, CpNsymC1, Y, Dir::Right);
    r.add(CpNsymRead, Pipe, CpNsymDone, Pipe, Dir::Left);
}

/// `acc` followed by the rules that `copy_symbol_bit` adds, in order.
pub open spec fn copy_symbol_bit_from(acc: Seq<Rule<State, Symbol>>, carry: State, s1: State, fh: State, fb: State, mark: Symbol) -> Seq<Rule<State, Symbol>> {
    let acc = acc + scan_rules(carry, seq![Zero, One, X, Y, Pipe, L, R, Semi, Dot, Star, Comma, Gt], Dir::Right);
    let acc = acc.push((carry, Symbol::Hash, s1, Symbol::Hash, Dir::Right));
    let acc = acc + scan_rules(s1, seq![Zero, One, X, Y], Dir::Right);
    let acc = acc.push((s1, Symbol::Hash, fh, Symbol::Hash, Dir::Right));
    let syms = (seq![Zero, One, X, Y] + seq![Comma]);
    let acc = acc + scan_rules(fh, syms, Dir::Right);
    let acc = acc.push((fh, Caret, fb, Caret, Dir::Right));
    let acc = acc + scan_rules(fb, seq![X, Y], Dir::Right);
    let acc = acc.push((fb, Zero, CpNsymRet, mark, Dir::Left));
    let acc = acc.push((fb, One, CpNsymRet, mark, Dir::Left));
    acc
}

/// PHASE 5 for one bit value: carry the bit of the new symbol to the head
/// cell.
fn copy_symbol_bit(r: &mut RuleSet, carry: State, s1: State, fh: State, fb: State, mark: Symbol)
    requires
        keys_distinct(old(r).rules@),
        carry != s1 && carry != fh && carry != fb && s1 != fh && s1 != fb && fh != fb,
        fresh_for(old(r).rules@, set![carry, s1, fh, fb]),
    ensures
        keys_distinct(final(r).rules@),
        grown_by(old(r).rules@, final(r).rules@, set![carry, s1, fh, fb]),
        final(r).rules@ == copy_symbol_bit_from(old(r).rules@, carry, s1, fh, fb, mark),
{
    scan_right(r, carry, &rule_all());
    r.add(carry, Symbol::Hash, s1, Symbol::Hash, Dir::Right);

    // s1: skip STATE → directly into TAPE
    scan_right(r, s1, &bits_and_marked());
    r.add(s1, Symbol::Hash, fh, Symbol::Hash, Dir::Right);

    // fh: find ^ in TAPE
    {
        let syms = with(&bits_and_marked(), vec![Comma]);
        scan_right(r, fh, &syms);
        r.add(fh, Caret, fb, Caret, Dir::Right);
    }

    scan_right(r, fb, &marked_bits());
    r.add(fb, Zero, CpNsymRet, mark, Dir::Left);
    r.add(fb, One, CpNsymRet, mark, Dir::Left);
}

/// `acc` followed by the rules that `copy_symbol_rules` adds, in order.
pub open spec fn copy_symbol_rules_from(acc: Seq<Rule<State, Symbol>>) -> Seq<Rule<State, Symbol>> {
    let acc = copy_symbol_bit_from(acc, CpNsymC0, CpNsymC0S1, CpNsymC0Fh, CpNsymC0Fb, X);
    let acc = copy_symbol_bit_from(acc, CpNsymC1, CpNsymC1S1, CpNsymC1Fh, CpNsymC1Fb, Y);
    acc
}

/// PHASE 5: carry each bit of the new symbol to the head cell.
fn copy_symbol_rules(r: &mut RuleSet)
    requires
        built_before(old(r).rules@, 17),
    ensures
        built_before(final(r).rules@, 18),
        final(r).rules@ == copy_symbol_rules_from(old(r).rules@),
{
    // Carry to head cell: skip rules, STATE, find ^
    copy_symbol_bit(r, CpNsymC0, CpNsymC0S1, CpNsymC0Fh, CpNsymC0Fb, X);
    copy_symbol_bit(r, CpNsymC1, CpNsymC1S1, CpNsymC1Fh, CpNsymC1Fb, Y);
}

/// `acc` followed by the rules that `copy_symbol_next_rules` adds, in order.
pub open spec fn copy_symbol_next_rules_from(acc: Seq<Rule<State, Symbol>>) -> Seq<Rule<State, Symbol>> {
    let acc = acc + seek_star_rules(CpNsymRet, CpNsymFnext);
    let fn_ = CpNsymFnext;
    let acc = acc + scan_rules(fn_, seq![Zero, One], Dir::Right);
    let acc = acc.push((fn_, Pipe, CpNsymFn2, Pipe, Dir::Right));
    let fn2 = CpNsymFn2;
    let acc = acc + scan_rules(fn2, seq![Zero, One], Dir::Right);
    let acc = acc.push((fn2, Pipe, CpNsymFn3, Pipe, Dir::Right));
    let fn3 = CpNsymFn3;
    let acc = acc + scan_rules(fn3, seq![Zero, One], Dir::Right);
    let acc = acc.push((fn3, Pipe, CpNsymFn4, Pipe, Dir::Right));
    let fn4 = CpNsymFn4;
    let acc = acc + scan_rules(fn4, seq![X, Y], Dir::Right);
    let acc = acc.push((fn4, Zero, CpNsymC0, X, Dir::Right));
    let acc = acc.push((fn4, One, CpNsymC1, Y, Dir::Right));
    let acc = acc.push((fn4, Pipe, CpNsymDone, Pipe, Dir::Left));
    acc
}

/// PHASE 5: go back to the next bit of the new symbol.
fn copy_symbol_next_rules(r: &mut RuleSet)
    requires
        built_before(old(r).rules@, 18),
    ensures
        built_before(final(r).rules@, 19),
        final(r).rules@ == copy_symbol_next_rules_from(old(r).rules@),
{
    {
        seek_star(r, CpNsymRet, CpNsymFnext);
    }
    {
        let fn_ = CpNsymFnext;
        scan_right(r, fn_, &bits());
        r.add(fn_, Pipe, CpNsymFn2, Pipe, Dir::Right);
    }
    {
        let fn2 = CpNsymFn2;
        scan_right(r, fn2, &bits());
        r.add(fn2, Pipe, CpNsymFn3, Pipe, Dir::Right);
    }
    {
        let fn3 = CpNsymFn3;
        scan_right(r, fn3, &bits());
        r.add(fn3, Pipe, CpNsymFn4, Pipe, Dir::Right);
    }
    {
        let fn4 = CpNsymFn4;
        scan_right(r, fn4, &marked_bits());
        r.add(fn4, Zero, CpNsymC0, X, Dir::Right);
        r.add(fn4, One, CpNsymC1, Y, Dir::Right);
        r.add(fn4, Pipe, CpNsymDone, Pipe, Dir::Left);
    }
}

/// `acc` followed by the rules that `copy_symbol_done_rules` adds, in order.
pub open spec fn copy_symbol_done_rules_from(acc: Seq<Rule<State, Symbol>>) -> Seq<Rule<State, Symbol>> {
    let d = CpNsymDone;
    let acc = acc.push((d, X, d, Zero, Dir::Left));
    let acc = acc.push((d, Y, d, One, Dir::Left));
    let acc = acc.push((d, Pipe, CpNsymRestNav, Pipe, Dir::Right));
    let nav = CpNsymRestNav;
    let syms = (seq![Zero, One, X, Y, Pipe, L, R, Comma] + seq![Semi, Dot, Gt]);
    let acc = acc + scan_rules(nav, syms, Dir::Right);
    let acc = acc.push((nav, Symbol::Hash, CpNsymRnS1, Symbol::Hash, Dir::Right));
    let s1 = CpNsymRnS1;
    let acc = acc + scan_rules(s1, seq![Zero, One], Dir::Right);
    let acc = acc.push((s1, Symbol::Hash, CpNsymRnFh, Symbol::Hash, Dir::Right));
    let fh = CpNsymRnFh;
    let syms = (seq![Zero, One] + seq![Comma]);
    let acc = acc + scan_rules(fh, syms, Dir::Right);
    let acc = acc.push((fh, Caret, CpNsymRnDo, Caret, Dir::Right));
    let rd = CpNsymRnDo;
    let acc = acc.push((rd, X, rd, Zero, Dir::Right));
    let acc = acc.push((rd, Y, rd, One, Dir::Right));
    let acc = acc + scan_rules(rd, seq![Zero, One], Dir::Right);
    let acc = acc.push((rd, Comma, ReadDir, Comma, Dir::Left));
    let acc = acc.push((rd, Blank, ReadDir, Blank, Dir::Left));
    acc
}

/// PHASE 5 done: restore the new symbol field and the head cell.
fn copy_symbol_done_rules(r: &mut RuleSet)
    requires
        built_before(old(r).rules@, 19),
    ensures
        built_before(final(r).rules@, 20),
        final(r).rules@ == copy_symbol_done_rules_from(old(r).rules@),
{
    // cp_nsym_done: restore newsym field and head cell
    {
        let d = CpNsymDone;
        r.add(d, X, d, Zero, Dir::Left);
        r.add(d, Y, d, One, Dir::Left);
        r.add(d, Pipe, CpNsymRestNav, Pipe, Dir::Right);
    }
    {
        let nav = CpNsymRestNav;
        let syms = with(&rule_internals(), vec![Semi, Dot, Gt]);
        scan_right(r, nav, &syms);
        r.add(nav, Symbol::Hash, CpNsymRnS1, Symbol::Hash, Dir::Right);
    }
    {
        // CpNsymRnS1: skip STATE → directly into TAPE
        let s1 = CpNsymRnS1;
        scan_right(r, s1, &bits());
        r.add(s1, Symbol::Hash, CpNsymRnFh, Symbol::Hash, Dir::Right);
    }
    {
        // CpNsymRnFh: find ^ in TAPE
        let fh = CpNsymRnFh;
        let syms = with(&bits(), vec![Comma]);
        scan_right(r, fh, &syms);
        r.add(fh, Caret, CpNsymRnDo, Caret, Dir::Right);
    }
    {
        let rd = CpNsymRnDo;
        r.add(rd, X, rd, Zero, Dir::Right);
        r.add(rd, Y, rd, One, Dir::Right);
        scan_right(r, rd, &bits());
        r.add(rd, Comma, ReadDir, Comma, Dir::Left);
        r.add(rd, Blank, ReadDir, Blank, Dir::Left);
    }
}

/// `acc` followed by the rules that `read_direction_rules` adds, in order.
pub open spec fn read_direction_rules_from(acc: Seq<Rule<State, Symbol>>) -> Seq<Rule<State, Symbol>> {
    let acc = acc + seek_star_rules(ReadDir, RdSkipToDir);
    let sk = RdSkipToDir;
    let acc = acc + scan_rules(sk, seq![Zero, One], Dir::Right);
    let acc = acc.push((sk, Pipe, RdSk2, Pipe, Dir::Right));
    let sk2 = RdSk2;
    let acc = acc + scan_rules(sk2, seq![Zero, One], Dir::Right);
    let acc = acc.push((sk2, Pipe, RdSk3, Pipe, Dir::Right));
    let sk3 = RdSk3;
    let acc = acc + scan_rules(sk3, seq![Zero, One], Dir::Right);
    let acc = acc.push((sk3, Pipe, RdSk4, Pipe, Dir::Right));
    let sk4 = RdSk4;
    let acc = acc + scan_rules(sk4, seq![Zero, One], Dir::Right);
    let acc = acc.push((sk4, Pipe, RdRead, Pipe, Dir::Right));
    let acc = acc.push((RdRead, L, MoveLeft, L, Dir::Left));
    let acc = acc.push((RdRead, R, MoveRight, R, Dir::Left));
    acc
}

/// PHASE 6: read the matched rule's direction.
fn read_direction_rules(r: &mut RuleSet)
    requires
        built_before(old(r).rules@, 20),
    ensures
        built_before(final(r).rules@, 21),
        final(r).rules@ == read_direction_rules_from(old(r).rules@),
{
    {
        seek_star(r, ReadDir, RdSkipToDir);
    }
    {
        let sk = RdSkipToDir;
        scan_right(r, sk, &bits());
        r.add(sk, Pipe, RdSk2, Pipe, Dir::Right);
    }
    {
        let sk2 = RdSk2;
        scan_right(r, sk2, &bits());
        r.add(sk2, Pipe, RdSk3, Pipe, Dir::Right);
    }
    {
        let sk3 = RdSk3;
        scan_right(r, sk3, &bits());
        r.add(sk3, Pipe, RdSk4, Pipe, Dir::Right);
    }
    {
        let sk4 = RdSk4;
        scan_right(r, sk4, &bits());
        r.add(sk4, Pipe, RdRead, Pipe, Dir::Right);
    }
    {
        r.add(RdRead, L, MoveLeft, L, Dir::Left);
        r.add(RdRead, R, MoveRight, R, Dir::Left);
    }
}

/// `acc` followed by the rules that `move_right_rules` adds, in order.
pub open spec fn move_right_rules_from(acc: Seq<Rule<State, Symbol>>) -> Seq<Rule<State, Symbol>> {
    let mr = MoveRight;
    let syms = (seq![Zero, One] + seq![Pipe, L, R, Comma]);
    let acc = acc + scan_rules(mr, syms, Dir::Left);
    let acc = acc.push((mr, Star, MrNav, Dot, Dir::Right));
    let nav = MrNav;
    let syms = (seq![Zero, One, X, Y, Pipe, L, R, Comma] + seq![Semi, Dot, Gt]);
    let acc = acc + scan_rules(nav, syms, Dir::Right);
    let acc = acc.push((nav, Symbol::Hash, MrS1, Symbol::Hash, Dir::Right));
    let s1 = MrS1;
    let acc = acc + scan_rules(s1, seq![Zero, One], Dir::Right);
    let acc = acc.push((s1, Symbol::Hash, MrFindHead, Symbol::Hash, Dir::Right));
    let fh = MrFindHead;
    let syms = (seq![Zero, One] + seq![Comma]);
    let acc = acc + scan_rules(fh, syms, Dir::Right);
    let acc = acc.push((fh, Caret, MrSkipCell, Gt, Dir::Right));
    let sc = MrSkipCell;
    let acc = acc + scan_rules(sc, seq![Zero, One], Dir::Right);
    let acc = acc.push((sc, Comma, MrPlaceHead, Caret, Dir::Left));
    let acc = acc.push((sc, Blank, MrExtendInit, Blank, Dir::Left));
    let ph = MrPlaceHead;
    let acc = acc + scan_rules(ph, seq![Zero, One], Dir::Left);
    let acc = acc.push((ph, Gt, DoneSeekHome, Comma, Dir::Left));
    acc
}

/// MOVE RIGHT: put the head mark on the next cell.
fn move_right_rules(r: &mut RuleSet)
    requires
        built_before(old(r).rules@, 21),
    ensures
        built_before(final(r).rules@, 22),
        final(r).rules@ == move_right_rules_from(old(r).rules@),
{
    {
        let mr = MoveRight;
        let syms = with(&bits(), vec![Pipe, L, R, Comma]);
        scan_left(r, mr, &syms);
        r.add(mr, Star, MrNav, Dot, Dir::Right);
    }
    {
        let nav = MrNav;
        let syms = with(&rule_internals(), vec![Semi, Dot, Gt]);
        scan_right(r, nav, &syms);
        r.add(nav, Symbol::Hash, MrS1, Symbol::Hash, Dir::Right);
    }
    {
        // MrS1: skip STATE → directly into TAPE
        let s1 = MrS1;
        scan_right(r, s1, &bits());
        r.add(s1, Symbol::Hash, MrFindHead, Symbol::Hash, Dir::Right);
    }
    {
        let fh = MrFindHead;
        let syms = with(&bits(), vec![Comma]);
        scan_right(r, fh, &syms);
        r.add(fh, Caret, MrSkipCell, Gt, Dir::Right);
    }
    {
        let sc = MrSkipCell;
        scan_right(r, sc, &bits());
        r.add(sc, Comma, MrPlaceHead, Caret, Dir::Left);
        r.add(sc, Blank, MrExtendInit, Blank, Dir::Left);
    }
    {
        let ph = MrPlaceHead;
        scan_left(r, ph, &bits());
        r.add(ph, Gt, DoneSeekHome, Comma, Dir::Left);
    }
}

/// `acc` followed by the rules that `extend_tape_rules` adds, in order.
pub open spec fn extend_tape_rules_from(acc: Seq<Rule<State, Symbol>>) -> Seq<Rule<State, Symbol>> {
    let ei = MrExtendInit;
    let acc = acc + scan_rules(ei, seq![Zero, One], Dir::Left);
    let acc = acc.push((ei, Gt, MrExtToBlank, Comma, Dir::Right));
    let tb = MrExtToBlank;
    let acc = acc + scan_rules(tb, seq![Zero, One], Dir::Right);
    let acc = acc.push((tb, Blank, MrExtWriteHead, Caret, Dir::Left));
    let acc = acc + seek_home_rules(MrExtWriteHead, MrExtHome);
    let eh = MrExtHome;
    let acc = acc + scan_rules(eh, seq![Zero, One, Semi], Dir::Right);
    let acc = acc.push((eh, Symbol::Hash, MrExtReadBlank, Symbol::Hash, Dir::Right));
    let rb = MrExtReadBlank;
    let acc = acc.push((rb, Zero, MrExtBc0, X, Dir::Right));
    let acc = acc.push((rb, One, MrExtBc1, Y, Dir::Right));
    let acc = acc.push((rb, Symbol::Hash, MrExtRestBlank, Symbol::Hash, Dir::Left));
    acc
}

/// EXTEND TAPE: moving right past the last cell appends a new cell.
fn extend_tape_rules(r: &mut RuleSet)
    requires
        built_before(old(r).rules@, 22),
    ensures
        built_before(final(r).rules@, 23),
        final(r).rules@ == extend_tape_rules_from(old(r).rules@),
{
    {
        let ei = MrExtendInit;
        scan_left(r, ei, &bits());
        r.add(ei, Gt, MrExtToBlank, Comma, Dir::Right);
    }
    {
        let tb = MrExtToBlank;
        scan_right(r, tb, &bits());
        r.add(tb, Blank, MrExtWriteHead, Caret, Dir::Left);
    }
    {
        seek_home(r, MrExtWriteHead, MrExtHome);
    }
    {
        // MrExtHome: at $+1, skip ACCEPT to reach BLANK
        let eh = MrExtHome;
        scan_right(r, eh, &vec![Zero, One, Semi]);
        r.add(eh, Symbol::Hash, MrExtReadBlank, Symbol::Hash, Dir::Right);
    }
    {
        let rb = MrExtReadBlank;
        r.add(rb, Zero, MrExtBc0, X, Dir::Right);
        r.add(rb, One, MrExtBc1, Y, Dir::Right);
        r.add(rb, Symbol::Hash, MrExtRestBlank, Symbol::Hash, Dir::Left);
    }
}

/// `acc` followed by the rules that `carry_blank_bit` adds, in order.
pub open spec fn carry_blank_bit_from(acc: Seq<Rule<State, Symbol>>, carry: State, c_sym: Symbol, all_between: Seq<Symbol>) -> Seq<Rule<State, Symbol>> {
    let acc = acc + scan_rules(carry, all_between, Dir::Right);
    let acc = acc.push((carry, Blank, MrExtBcRet, c_sym, Dir::Left));
    acc
}

/// Carry one bit of the blank's code to the end of the tape.
fn carry_blank_bit(r: &mut RuleSet, carry: State, c_sym: Symbol, all_between: &Vec<Symbol>)
    requires
        keys_distinct(old(r).rules@),
        fresh_for(old(r).rules@, set![carry]),
        all_between@.no_duplicates(),
        !all_between@.contains(Blank),
    ensures
        keys_distinct(final(r).rules@),
        grown_by(old(r).rules@, final(r).rules@, set![carry]),
        final(r).rules@ == carry_blank_bit_from(old(r).rules@, carry, c_sym, all_between@),
{
    scan_right(r, carry, all_between);
    r.add(carry, Blank, MrExtBcRet, c_sym, Dir::Left);
}

/// `acc` followed by the rules that `extend_tape_carry_rules` adds, in order.
pub open spec fn extend_tape_carry_rules_from(acc: Seq<Rule<State, Symbol>>) -> Seq<Rule<State, Symbol>> {
    let all_between = seq![Zero, One, Symbol::Hash, Comma, Caret, Pipe, Semi, Dot, L, R, Star, Gt, ];
    let acc = carry_blank_bit_from(acc, MrExtBc0, Zero, all_between);
    let acc = carry_blank_bit_from(acc, MrExtBc1, One, all_between);
    let ret = MrExtBcRet;
    let acc = acc + scan_rules(ret, all_between, Dir::Left);
    let acc = acc.push((ret, X, MrExtBcNext, X, Dir::Right));
    let acc = acc.push((ret, Y, MrExtBcNext, Y, Dir::Right));
    acc
}

/// Carry the blank's code from the blank section to the end of the tape.
/// Path: BLANK → #[1] → RULES → #[2] → STATE → #[3] → TAPE → Blank; all
/// sections between are clean (no X/Y marks).
fn extend_tape_carry_rules(r: &mut RuleSet)
    requires
        built_before(old(r).rules@, 23),
    ensures
        built_before(final(r).rules@, 24),
        final(r).rules@ == extend_tape_carry_rules_from(old(r).rules@),
{
    let all_between: Vec<Symbol> = vec![
        Zero, One, Symbol::Hash, Comma, Caret, Pipe, Semi, Dot, L, R, Star, Gt,
    ];
    carry_blank_bit(r, MrExtBc0, Zero, &all_between);
    carry_blank_bit(r, MrExtBc1, One, &all_between);
    {
        let ret = MrExtBcRet;
        scan_left(r, ret, &all_between);
        r.add(ret, X, MrExtBcNext, X, Dir::Right);
        r.add(ret, Y, MrExtBcNext, Y, Dir::Right);
    }
}

/// `acc` followed by the rules that `extend_tape_done_rules` adds, in order.
pub open spec fn extend_tape_done_rules_from(acc: Seq<Rule<State, Symbol>>) -> Seq<Rule<State, Symbol>> {
    let next = MrExtBcNext;
    let acc = acc + scan_rules(next, seq![X, Y], Dir::Right);
    let acc = acc.push((next, Zero, MrExtBc0, X, Dir::Right));
    let acc = acc.push((next, One, MrExtBc1, Y, Dir::Right));
    let acc = acc.push((next, Symbol::Hash, MrExtRestBlank, Symbol::Hash, Dir::Left));
    let rb = MrExtRestBlank;
    let acc = acc.push((rb, X, rb, Zero, Dir::Left));
    let acc = acc.push((rb, Y, rb, One, Dir::Left));
    let acc = acc + scan_rules(rb, seq![Zero, One], Dir::Left);
    let acc = acc.push((rb, Symbol::Hash, MrExtNavToHead, Symbol::Hash, Dir::Right));
    let nth = MrExtNavToHead;
    let syms = (seq![Zero, One] + seq![Symbol::Hash, Comma, Pipe, Semi, Dot, L, R, Star, Gt]);
    let acc = acc + scan_rules(nth, syms, Dir::Right);
    let acc = acc.push((nth, Caret, DoneSeekHome, Caret, Dir::Left));
    acc
}

/// EXTEND TAPE done: restore the blank section and go to the head.
fn extend_tape_done_rules(r: &mut RuleSet)
    requires
        built_before(old(r).rules@, 24),
    ensures
        built_before(final(r).rules@, 25),
        final(r).rules@ == extend_tape_done_rules_from(old(r).rules@),
{
    {
        let next = MrExtBcNext;
        scan_right(r, next, &marked_bits());
        r.add(next, Zero, MrExtBc0, X, Dir::Right);
        r.add(next, One, MrExtBc1, Y, Dir::Right);
        r.add(next, Symbol::Hash, MrExtRestBlank, Symbol::Hash, Dir::Left);
    }
    {
        let rb = MrExtRestBlank;
        r.add(rb, X, rb, Zero, Dir::Left);
        r.add(rb, Y, rb, One, Dir::Left);
        scan_left(r, rb, &bits());
        // Navigate right from BLANK boundary to find ^ in TAPE
        r.add(rb, Symbol::Hash, MrExtNavToHead, Symbol::Hash, Dir::Right);
    }
    {
        // MrExtNavToHead: scan right past all sections to find ^ in TAPE
        let nth = MrExtNavToHead;
        let syms = with(&bits(), vec![Symbol::Hash, Comma, Pipe, Semi, Dot, L, R, Star, Gt]);
        scan_right(r, nth, &syms);
        r.add(nth, Caret, DoneSeekHome, Caret, Dir::Left);
    }
}

/// `acc` followed by the rules that `move_left_rules` adds, in order.
pub open spec fn move_left_rules_from(acc: Seq<Rule<State, Symbol>>) -> Seq<Rule<State, Symbol>> {
    let ml = MoveLeft;
    let syms = (seq![Zero, One] + seq![Pipe, L, R, Comma]);
    let acc = acc + scan_rules(ml, syms, Dir::Left);
    let acc = acc.push((ml, Star, MlNav, Dot, Dir::Right));
    let nav = MlNav;
    let syms = (seq![Zero, One, X, Y, Pipe, L, R, Comma] + seq![Semi, Dot, Gt]);
    let acc = acc + scan_rules(nav, syms, Dir::Right);
    let acc = acc.push((nav, Symbol::Hash, MlS1, Symbol::Hash, Dir::Right));
    let s1 = MlS1;
    let acc = acc + scan_rules(s1, seq![Zero, One], Dir::Right);
    let acc = acc.push((s1, Symbol::Hash, MlFindHead, Symbol::Hash, Dir::Right));
    let fh = MlFindHead;
    let syms = (seq![Zero, One] + seq![Comma]);
    let acc = acc + scan_rules(fh, syms, Dir::Right);
    let acc = acc.push((fh, Caret, MlMark, Gt, Dir::Left));
    let mk = MlMark;
    let acc = acc + scan_rules(mk, seq![Zero, One], Dir::Left);
    let acc = acc.push((mk, Comma, MlRestore, Caret, Dir::Right));
    let rs = MlRestore;
    let acc = acc + scan_rules(rs, seq![Zero, One], Dir::Right);
    let acc = acc.push((rs, Gt, DoneSeekHome, Comma, Dir::Left));
    acc
}

/// MOVE LEFT: put the head mark on the previous cell.
fn move_left_rules(r: &mut RuleSet)
    requires
        built_before(old(r).rules@, 25),
    ensures
        built_before(final(r).rules@, 26),
        final(r).rules@ == move_left_rules_from(old(r).rules@),
{
    {
        let ml = MoveLeft;
        let syms = with(&bits(), vec![Pipe, L, R, Comma]);
        scan_left(r, ml, &syms);
        r.add(ml, Star, MlNav, Dot, Dir::Right);
    }
    {
        let nav = MlNav;
        let syms = with(&rule_internals(), vec![Semi, Dot, Gt]);
        scan_right(r, nav, &syms);
        r.add(nav, Symbol::Hash, MlS1, Symbol::Hash, Dir::Right);
    }
    {
        // MlS1: skip STATE → directly into TAPE
        let s1 = MlS1;
        scan_right(r, s1, &bits());
        r.add(s1, Symbol::Hash, MlFindHead, Symbol::Hash, Dir::Right);
    }
    {
        let fh = MlFindHead;
        let syms = with(&bits(), vec![Comma]);
        scan_right(r, fh, &syms);
        r.add(fh, Caret, MlMark, Gt, Dir::Left);
    }
    {
        let mk = MlMark;
        scan_left(r, mk, &bits());
        r.add(mk, Comma, MlRestore, Caret, Dir::Right);
    }
    {
        let rs = MlRestore;
        scan_right(r, rs, &bits());
        r.add(rs, Gt, DoneSeekHome, Comma, Dir::Left);
    }
}

/// `acc` followed by the rules that `restart_rules` adds, in order.
pub open spec fn restart_rules_from(acc: Seq<Rule<State, Symbol>>) -> Seq<Rule<State, Symbol>> {
    let acc = acc + seek_home_rules(DoneSeekHome, Init);
    acc
}

/// PHASE 7: seek home and restart.
fn restart_rules(r: &mut RuleSet)
    requires
        built_before(old(r).rules@, 26),
    ensures
        built_before(final(r).rules@, 27),
        final(r).rules@ == restart_rules_from(old(r).rules@),
{
    seek_home(r, DoneSeekHome, Init);
}

/// `acc` followed by the rules that `check_accept_bit` adds, in order.
pub open spec fn check_accept_bit_from(acc: Seq<Rule<State, Symbol>>, carry: State, sk1: State, sk2: State, find: State) -> Seq<Rule<State, Symbol>> {
    let syms = (seq![Zero, One, X, Y] + seq![Semi]);
    let acc = acc + scan_rules(carry, syms, Dir::Right);
    let acc = acc.push((carry, Symbol::Hash, sk1, Symbol::Hash, Dir::Right));
    let acc = acc + scan_rules(sk1, seq![Zero, One], Dir::Right);
    let acc = acc.push((sk1, Symbol::Hash, sk2, Symbol::Hash, Dir::Right));
    let acc = acc + scan_rules(sk2, seq![Zero, One, X, Y, Pipe, L, R, Semi, Dot, Star, Comma, Gt], Dir::Right);
    let acc = acc.push((sk2, Symbol::Hash, find, Symbol::Hash, Dir::Right));
    let acc = acc + scan_rules(find, seq![X, Y], Dir::Right);
    let acc = if carry == ChkAccC0 {
        let acc = acc.push((find, Zero, ChkAccOk, X, Dir::Left));
        let acc = acc.push((find, One, ChkAccFailBit, Y, Dir::Left));
        acc
    } else {
        let acc = acc.push((find, One, ChkAccOk, Y, Dir::Left));
        let acc = acc.push((find, Zero, ChkAccFailBit, X, Dir::Left));
        acc
    };
    acc
}

/// PHASE 8 for one bit value: carry an accepting state's bit to the state
/// section and compare it with the next unmarked bit there.
fn check_accept_bit(r: &mut RuleSet, carry: State, sk1: State, sk2: State, find: State)
    requires
        keys_distinct(old(r).rules@),
        carry != sk1 && carry != sk2 && carry != find && sk1 != sk2 && sk1 != find && sk2 != find,
        fresh_for(old(r).rules@, set![carry, sk1, sk2, find]),
    ensures
        keys_distinct(final(r).rules@),
        grown_by(old(r).rules@, final(r).rules@, set![carry, sk1, sk2, find]),
        final(r).rules@ == check_accept_bit_from(old(r).rules@, carry, sk1, sk2, find),
{
    // Scan right through remaining ACCEPT content
    let syms = with(&bits_and_marked(), vec![Semi]);
    scan_right(r, carry, &syms);
    r.add(carry, Symbol::Hash, sk1, Symbol::Hash, Dir::Right);

    // sk1: skip BLANK → #[1]
    scan_right(r, sk1, &bits());
    r.add(sk1, Symbol::Hash, sk2, Symbol::Hash, Dir::Right);

    // sk2: skip RULES → #[2]
    scan_right(r, sk2, &rule_all());
    r.add(sk2, Symbol::Hash, find, Symbol::Hash, Dir::Right);

    // find: in STATE, find next unmarked bit
    scan_right(r, find, &marked_bits());
    if carry == ChkAccC0 {
        r.add(find, Zero, ChkAccOk, X, Dir::Left);
        r.add(find, One, ChkAccFailBit, Y, Dir::Left);
    } else {
        r.add(find, One, ChkAccOk, Y, Dir::Left);
        r.add(find, Zero, ChkAccFailBit, X, Dir::Left);
    }
}

/// `acc` followed by the rules that `check_accept_rules` adds, in order.
pub open spec fn check_accept_rules_from(acc: Seq<Rule<State, Symbol>>) -> Seq<Rule<State, Symbol>> {
    let ci = ChkAccInit;
    let acc = acc.push((ci, Symbol::Hash, RejFinalHome, Symbol::Hash, Dir::Left));
    let acc = acc.push((ci, Zero, ChkAccC0, X, Dir::Right));
    let acc = acc.push((ci, One, ChkAccC1, Y, Dir::Right));
    let acc = check_accept_bit_from(acc, ChkAccC0, ChkAccC0Sk1, ChkAccC0Sk2, ChkAccC0Find);
    let acc = check_accept_bit_from(acc, ChkAccC1, ChkAccC1Sk1, ChkAccC1Sk2, ChkAccC1Find);
    acc
}

/// PHASE 8: no rule applies; compare the current state with each
/// accepting state.  ChkAccInit enters at `$`+1, the start of ACCEPT.
fn check_accept_rules(r: &mut RuleSet)
    requires
        built_before(old(r).rules@, 27),
    ensures
        built_before(final(r).rules@, 28),
        final(r).rules@ == check_accept_rules_from(old(r).rules@),
{
    {
        let ci = ChkAccInit;
        // If ACCEPT is empty, #[0] is right after $
        r.add(ci, Symbol::Hash, RejFinalHome, Symbol::Hash, Dir::Left);
        r.add(ci, Zero, ChkAccC0, X, Dir::Right);
        r.add(ci, One, ChkAccC1, Y, Dir::Right);
    }

    // Carry accept bit to STATE: skip rest of ACC → #[0] → BLANK → #[1] → RULES → #[2] → STATE
    check_accept_bit(r, ChkAccC0, ChkAccC0Sk1, ChkAccC0Sk2, ChkAccC0Find);
    check_accept_bit(r, ChkAccC1, ChkAccC1Sk1, ChkAccC1Sk2, ChkAccC1Find);
}

/// `acc` followed by the rules that `accept_bit_matched_rules` adds, in order.
pub open spec fn accept_bit_matched_rules_from(acc: Seq<Rule<State, Symbol>>) -> Seq<Rule<State, Symbol>> {
    let ok = ChkAccOk;
    let acc = acc + scan_rules(ok, seq![Zero, One, X, Y], Dir::Left);
    let acc = acc.push((ok, Symbol::Hash, ChkAccOkSk1, Symbol::Hash, Dir::Left));
    let sk1 = ChkAccOkSk1;
    let acc = acc + scan_rules(sk1, seq![Zero, One, X, Y, Pipe, L, R, Semi, Dot, Star, Comma, Gt], Dir::Left);
    let acc = acc.push((sk1, Symbol::Hash, ChkAccOkSk2, Symbol::Hash, Dir::Left));
    let sk2 = ChkAccOkSk2;
    let acc = acc + scan_rules(sk2, seq![Zero, One], Dir::Left);
    let acc = acc.push((sk2, Symbol::Hash, ChkAccOkAcc, Symbol::Hash, Dir::Left));
    let oa = ChkAccOkAcc;
    let syms = (seq![Zero, One, X, Y] + seq![Semi]);
    let acc = acc + scan_rules(oa, syms, Dir::Left);
    let acc = acc.push((oa, Dollar, ChkAccOkFind, Dollar, Dir::Right));
    let of_ = ChkAccOkFind;
    let syms = (seq![Zero, One] + seq![Semi]);
    let acc = acc + scan_rules(of_, syms, Dir::Right);
    let acc = acc.push((of_, X, ChkAccOkSkip, X, Dir::Right));
    let acc = acc.push((of_, Y, ChkAccOkSkip, Y, Dir::Right));
    let acc = acc.push((of_, Symbol::Hash, AcceptSeekHome, Symbol::Hash, Dir::Left));
    let skip = ChkAccOkSkip;
    let acc = acc + scan_rules(skip, seq![X, Y], Dir::Right);
    let acc = acc.push((skip, Zero, ChkAccC0, X, Dir::Right));
    let acc = acc.push((skip, One, ChkAccC1, Y, Dir::Right));
    let acc = acc.push((skip, Semi, AcceptSeekHome, Semi, Dir::Left));
    let acc = acc.push((skip, Symbol::Hash, AcceptSeekHome, Symbol::Hash, Dir::Left));
    acc
}

/// Accept bit matched: go back to ACCEPT for the next bit.
/// From STATE, go left: #[2] → RULES → #[1] → BLANK → #[0] → ACCEPT → $
fn accept_bit_matched_rules(r: &mut RuleSet)
    requires
        built_before(old(r).rules@, 28),
    ensures
        built_before(final(r).rules@, 29),
        final(r).rules@ == accept_bit_matched_rules_from(old(r).rules@),
{
    {
        let ok = ChkAccOk;
        scan_left(r, ok, &bits_and_marked());
        r.add(ok, Symbol::Hash, ChkAccOkSk1, Symbol::Hash, Dir::Left);
    }
    {
        // ChkAccOkSk1: skip RULES leftward → #[1]
        let sk1 = ChkAccOkSk1;
        scan_left(r, sk1, &rule_all());
        r.add(sk1, Symbol::Hash, ChkAccOkSk2, Symbol::Hash, Dir::Left);
    }
    {
        // ChkAccOkSk2: skip BLANK leftward → #[0]
        let sk2 = ChkAccOkSk2;
        scan_left(r, sk2, &bits());
        r.add(sk2, Symbol::Hash, ChkAccOkAcc, Symbol::Hash, Dir::Left);
    }
    {
        // ChkAccOkAcc: in ACCEPT, scan left to $
        let oa = ChkAccOkAcc;
        let syms = with(&bits_and_marked(), vec![Semi]);
        scan_left(r, oa, &syms);
        r.add(oa, Dollar, ChkAccOkFind, Dollar, Dir::Right);
    }
    {
        // ChkAccOkFind: scan right to find next marked bit (resume position)
        let of_ = ChkAccOkFind;
        let syms = with(&bits(), vec![Semi]);
        scan_right(r, of_, &syms);
        r.add(of_, X, ChkAccOkSkip, X, Dir::Right);
        r.add(of_, Y, ChkAccOkSkip, Y, Dir::Right);
        r.add(of_, Symbol::Hash, AcceptSeekHome, Symbol::Hash, Dir::Left);
    }
    {
        let skip = ChkAccOkSkip;
        scan_right(r, skip, &marked_bits());
        r.add(skip, Zero, ChkAccC0, X, Dir::Right);
        r.add(skip, One, ChkAccC1, Y, Dir::Right);
        r.add(skip, Semi, AcceptSeekHome, Semi, Dir::Left);
        r.add(skip, Symbol::Hash, AcceptSeekHome, Symbol::Hash, Dir::Left);
    }
}

/// `acc` followed by the rules that `accept_bit_mismatch_rules` adds, in order.
pub open spec fn accept_bit_mismatch_rules_from(acc: Seq<Rule<State, Symbol>>) -> Seq<Rule<State, Symbol>> {
    let fb = ChkAccFailBit;
    let acc = acc + scan_rules(fb, seq![Zero, One, X, Y], Dir::Left);
    let acc = acc.push((fb, Symbol::Hash, ChkAccRestState, Symbol::Hash, Dir::Right));
    let rs = ChkAccRestState;
    let acc = acc.push((rs, X, rs, Zero, Dir::Right));
    let acc = acc.push((rs, Y, rs, One, Dir::Right));
    let acc = acc + scan_rules(rs, seq![Zero, One], Dir::Right);
    let acc = acc.push((rs, Symbol::Hash, ChkAccBack2acc, Symbol::Hash, Dir::Left));
    let ba = ChkAccBack2acc;
    let acc = acc + scan_rules(ba, seq![Zero, One], Dir::Left);
    let acc = acc.push((ba, Symbol::Hash, ChkAccIntoAcc, Symbol::Hash, Dir::Left));
    let ia = ChkAccIntoAcc;
    let syms = (seq![Zero, One, X, Y] + seq![Semi, Symbol::Hash, Pipe, Dot, L, R, Comma, Star, Gt]);
    let acc = acc + scan_rules(ia, syms, Dir::Left);
    let acc = acc.push((ia, Dollar, ChkAccDoRest, Dollar, Dir::Right));
    acc
}

/// Accept bit mismatch: restore the state section and return to ACCEPT.
fn accept_bit_mismatch_rules(r: &mut RuleSet)
    requires
        built_before(old(r).rules@, 29),
    ensures
        built_before(final(r).rules@, 30),
        final(r).rules@ == accept_bit_mismatch_rules_from(old(r).rules@),
{
    {
        let fb = ChkAccFailBit;
        scan_left(r, fb, &bits_and_marked());
        r.add(fb, Symbol::Hash, ChkAccRestState, Symbol::Hash, Dir::Right);
    }
    {
        let rs = ChkAccRestState;
        r.add(rs, X, rs, Zero, Dir::Right);
        r.add(rs, Y, rs, One, Dir::Right);
        scan_right(r, rs, &bits());
        r.add(rs, Symbol::Hash, ChkAccBack2acc, Symbol::Hash, Dir::Left);
    }
    {
        // ChkAccBack2acc: go left from right boundary of STATE, cross RULES and BLANK to ACCEPT
        let ba = ChkAccBack2acc;
        scan_left(r, ba, &bits());
        r.add(ba, Symbol::Hash, ChkAccIntoAcc, Symbol::Hash, Dir::Left);
    }
    {
        // ChkAccIntoAcc: scan left through RULES, BLANK, into ACCEPT, to $
        let ia = ChkAccIntoAcc;
        let syms = with(&bits_and_marked(), vec![Semi, Symbol::Hash, Pipe, Dot, L, R, Comma, Star, Gt]);
        scan_left(r, ia, &syms);
        r.add(ia, Dollar, ChkAccDoRest, Dollar, Dir::Right);
    }
}

/// `acc` followed by the rules that `accept_next_entry_rules` adds, in order.
pub open spec fn accept_next_entry_rules_from(acc: Seq<Rule<State, Symbol>>) -> Seq<Rule<State, Symbol>> {
    let dr = ChkAccDoRest;
    let acc = acc + scan_rules(dr, seq![Zero, One], Dir::Right);
    let acc = acc.push((dr, X, ChkAccDoRest2, Zero, Dir::Right));
    let acc = acc.push((dr, Y, ChkAccDoRest2, One, Dir::Right));
    let acc = acc.push((dr, Semi, ChkAccNextEntry, Semi, Dir::Right));
    let acc = acc.push((dr, Symbol::Hash, RejectSeekHome, Symbol::Hash, Dir::Left));
    let dr2 = ChkAccDoRest2;
    let acc = acc.push((dr2, X, dr2, Zero, Dir::Right));
    let acc = acc.push((dr2, Y, dr2, One, Dir::Right));
    let acc = acc + scan_rules(dr2, seq![Zero, One], Dir::Right);
    let acc = acc.push((dr2, Semi, ChkAccNextEntry, Semi, Dir::Right));
    let acc = acc.push((dr2, Symbol::Hash, RejectSeekHome, Symbol::Hash, Dir::Left));
    let ne = ChkAccNextEntry;
    let acc = acc.push((ne, Zero, ChkAccC0, X, Dir::Right));
    let acc = acc.push((ne, One, ChkAccC1, Y, Dir::Right));
    let acc = acc.push((ne, Symbol::Hash, RejectSeekHome, Symbol::Hash, Dir::Left));
    acc
}

/// Restore the failed accepting entry and try the next one.
fn accept_next_entry_rules(r: &mut RuleSet)
    requires
        built_before(old(r).rules@, 30),
    ensures
        built_before(final(r).rules@, 31),
        final(r).rules@ == accept_next_entry_rules_from(old(r).rules@),
{
    {
        let dr = ChkAccDoRest;
        scan_right(r, dr, &bits());
        r.add(dr, X, ChkAccDoRest2, Zero, Dir::Right);
        r.add(dr, Y, ChkAccDoRest2, One, Dir::Right);
        r.add(dr, Semi, ChkAccNextEntry, Semi, Dir::Right);
        r.add(dr, Symbol::Hash, RejectSeekHome, Symbol::Hash, Dir::Left);
    }
    {
        let dr2 = ChkAccDoRest2;
        r.add(dr2, X, dr2, Zero, Dir::Right);
        r.add(dr2, Y, dr2, One, Dir::Right);
        scan_right(r, dr2, &bits());
        r.add(dr2, Semi, ChkAccNextEntry, Semi, Dir::Right);
        r.add(dr2, Symbol::Hash, RejectSeekHome, Symbol::Hash, Dir::Left);
    }
    {
        let ne = ChkAccNextEntry;
        r.add(ne, Zero, ChkAccC0, X, Dir::Right);
        r.add(ne, One, ChkAccC1, Y, Dir::Right);
        r.add(ne, Symbol::Hash, RejectSeekHome, Symbol::Hash, Dir::Left);
    }
}

/// `acc` followed by the rules that `accept_rules` adds, in order.
pub open spec fn accept_rules_from(acc: Seq<Rule<State, Symbol>>) -> Seq<Rule<State, Symbol>> {
    let ash = AcceptSeekHome;
    let syms = (seq![Zero, One, X, Y] + seq![Semi]);
    let acc = acc + scan_rules(ash, syms, Dir::Left);
    let acc = acc.push((ash, Dollar, AccRestAcc, Dollar, Dir::Right));
    let ra = AccRestAcc;
    let acc = acc.push((ra, X, ra, Zero, Dir::Right));
    let acc = acc.push((ra, Y, ra, One, Dir::Right));
    let syms = (seq![Zero, One] + seq![Semi]);
    let acc = acc + scan_rules(ra, syms, Dir::Right);
    let acc = acc.push((ra, Symbol::Hash, AccRestSkip1, Symbol::Hash, Dir::Right));
    let sk1 = AccRestSkip1;
    let acc = acc + scan_rules(sk1, seq![Zero, One], Dir::Right);
    let acc = acc.push((sk1, Symbol::Hash, AccRestSkip2, Symbol::Hash, Dir::Right));
    let sk2 = AccRestSkip2;
    let acc = acc + scan_rules(sk2, seq![Zero, One, X, Y, Pipe, L, R, Semi, Dot, Star, Comma, Gt], Dir::Right);
    let acc = acc.push((sk2, Symbol::Hash, AccRestState, Symbol::Hash, Dir::Right));
    let rs = AccRestState;
    let acc = acc.push((rs, X, rs, Zero, Dir::Right));
    let acc = acc.push((rs, Y, rs, One, Dir::Right));
    let acc = acc + scan_rules(rs, seq![Zero, One], Dir::Right);
    let acc = acc.push((rs, Symbol::Hash, AccFinalHome, Symbol::Hash, Dir::Left));
    let acc = acc + seek_home_rules(AccFinalHome, Accept);
    acc
}

/// Accept: restore ACCEPT and STATE, seek home and halt in `Accept`.
fn accept_rules(r: &mut RuleSet)
    requires
        built_before(old(r).rules@, 31),
    ensures
        built_before(final(r).rules@, 32),
        final(r).rules@ == accept_rules_from(old(r).rules@),
{
    {
        let ash = AcceptSeekHome;
        let syms = with(&bits_and_marked(), vec![Semi]);
        scan_left(r, ash, &syms);
        r.add(ash, Dollar, AccRestAcc, Dollar, Dir::Right);
    }
    {
        let ra = AccRestAcc;
        r.add(ra, X, ra, Zero, Dir::Right);
        r.add(ra, Y, ra, One, Dir::Right);
        let syms = with(&bits(), vec![Semi]);
        scan_right(r, ra, &syms);
        // Hit #[0] → skip BLANK → #[1] → skip RULES → #[2] → STATE
        r.add(ra, Symbol::Hash, AccRestSkip1, Symbol::Hash, Dir::Right);
    }
    {
        // AccRestSkip1: skip BLANK
        let sk1 = AccRestSkip1;
        scan_right(r, sk1, &bits());
        r.add(sk1, Symbol::Hash, AccRestSkip2, Symbol::Hash, Dir::Right);
    }
    {
        // AccRestSkip2: skip RULES
        let sk2 = AccRestSkip2;
        scan_right(r, sk2, &rule_all());
        r.add(sk2, Symbol::Hash, AccRestState, Symbol::Hash, Dir::Right);
    }
    {
        let rs = AccRestState;
        r.add(rs, X, rs, Zero, Dir::Right);
        r.add(rs, Y, rs, One, Dir::Right);
        scan_right(r, rs, &bits());
        r.add(rs, Symbol::Hash, AccFinalHome, Symbol::Hash, Dir::Left);
    }
    seek_home(r, AccFinalHome, Accept);
}

/// `acc` followed by the rules that `reject_rules` adds, in order.
pub open spec fn reject_rules_from(acc: Seq<Rule<State, Symbol>>) -> Seq<Rule<State, Symbol>> {
    let rsh = RejectSeekHome;
    let syms = (seq![Zero, One, X, Y] + seq![Semi]);
    let acc = acc + scan_rules(rsh, syms, Dir::Left);
    let acc = acc.push((rsh, Dollar, RejRestAcc, Dollar, Dir::Right));
    let ra = RejRestAcc;
    let acc = acc.push((ra, X, ra, Zero, Dir::Right));
    let acc = acc.push((ra, Y, ra, One, Dir::Right));
    let syms = (seq![Zero, One] + seq![Semi]);
    let acc = acc + scan_rules(ra, syms, Dir::Right);
    let acc = acc.push((ra, Symbol::Hash, RejRestSkip1, Symbol::Hash, Dir::Right));
    let sk1 = RejRestSkip1;
    let acc = acc + scan_rules(sk1, seq![Zero, One], Dir::Right);
    let acc = acc.push((sk1, Symbol::Hash, RejRestSkip2, Symbol::Hash, Dir::Right));
    let sk2 = RejRestSkip2;
    let acc = acc + scan_rules(sk2, seq![Zero, One, X, Y, Pipe, L, R, Semi, Dot, Star, Comma, Gt], Dir::Right);
    let acc = acc.push((sk2, Symbol::Hash, RejRestState, Symbol::Hash, Dir::Right));
    let rs = RejRestState;
    let acc = acc.push((rs, X, rs, Zero, Dir::Right));
    let acc = acc.push((rs, Y, rs, One, Dir::Right));
    let acc = acc + scan_rules(rs, seq![Zero, One], Dir::Right);
    let acc = acc.push((rs, Symbol::Hash, RejFinalHome, Symbol::Hash, Dir::Left));
    let acc = acc + seek_home_rules(RejFinalHome, Reject);
    acc
}

/// Reject: restore marks, seek home and halt in `Reject`.
fn reject_rules(r: &mut RuleSet)
    requires
        built_before(old(r).rules@, 32),
    ensures
        built_before(final(r).rules@, 33),
        final(r).rules@ == reject_rules_from(old(r).rules@),
{
    {
        let rsh = RejectSeekHome;
        let syms = with(&bits_and_marked(), vec![Semi]);
        scan_left(r, rsh, &syms);
        r.add(rsh, Dollar, RejRestAcc, Dollar, Dir::Right);
    }
    {
        let ra = RejRestAcc;
        r.add(ra, X, ra, Zero, Dir::Right);
        r.add(ra, Y, ra, One, Dir::Right);
        let syms = with(&bits(), vec![Semi]);
        scan_right(r, ra, &syms);
        // Hit #[0] → skip BLANK → #[1] → skip RULES → #[2] → STATE
        r.add(ra, Symbol::Hash, RejRestSkip1, Symbol::Hash, Dir::Right);
    }
    {
        // RejRestSkip1: skip BLANK
        let sk1 = RejRestSkip1;
        scan_right(r, sk1, &bits());
        r.add(sk1, Symbol::Hash, RejRestSkip2, Symbol::Hash, Dir::Right);
    }
    {
        // RejRestSkip2: skip RULES
        let sk2 = RejRestSkip2;
        scan_right(r, sk2, &rule_all());
        r.add(sk2, Symbol::Hash, RejRestState, Symbol::Hash, Dir::Right);
    }
    {
        let rs = RejRestState;
        r.add(rs, X, rs, Zero, Dir::Right);
        r.add(rs, Y, rs, One, Dir::Right);
        scan_right(r, rs, &bits());
        r.add(rs, Symbol::Hash, RejFinalHome, Symbol::Hash, Dir::Left);
    }
    seek_home(r, RejFinalHome, Reject);
}

/// The rules of the universal machine, in the order the builder gives
/// them.
#[verifier::opaque]
pub open spec fn utm_rule_list() -> Seq<Rule<State, Symbol>> {
    let s = Seq::<Rule<State, Symbol>>::empty();
    let s = init_rules_from(s);
    let s = mark_rule_rules_from(s);
    let s = compare_state_rules_from(s);
    let s = state_bit_matched_rules_from(s);
    let s = state_match_cleanup_rules_from(s);
    let s = state_match_restore_rules_from(s);
    let s = state_mismatch_rules_from(s);
    let s = compare_symbol_rules_from(s);
    let s = symbol_bit_matched_rules_from(s);
    let s = symbol_mismatch_rules_from(s);
    let s = symbol_mismatch_restore_rules_from(s);
    let s = symbol_match_cleanup_rules_from(s);
    let s = symbol_match_restore_rules_from(s);
    let s = copy_state_rules_from(s);
    let s = copy_state_next_rules_from(s);
    let s = copy_state_done_rules_from(s);
    let s = copy_symbol_nav_rules_from(s);
    let s = copy_symbol_rules_from(s);
    let s = copy_symbol_next_rules_from(s);
    let s = copy_symbol_done_rules_from(s);
    let s = read_direction_rules_from(s);
    let s = move_right_rules_from(s);
    let s = extend_tape_rules_from(s);
    let s = extend_tape_carry_rules_from(s);
    let s = extend_tape_done_rules_from(s);
    let s = move_left_rules_from(s);
    let s = restart_rules_from(s);
    let s = check_accept_rules_from(s);
    let s = accept_bit_matched_rules_from(s);
    let s = accept_bit_mismatch_rules_from(s);
    let s = accept_next_entry_rules_from(s);
    let s = accept_rules_from(s);
    let s = reject_rules_from(s);
    s
}

/// The rules of the universal machine.  No state and symbol get two
/// rules, and the halting states get none.
fn build_utm_rules() -> (r: Vec<Rule<State, Symbol>>)
    ensures
        keys_distinct(r@),
        forall|i: int| 0 <= i < r@.len() ==> block_of(#[trigger] r@[i].0) < 33,
        r@ == utm_rule_list(),
{
    proof {
        reveal(utm_rule_list);
    }
    let mut r = RuleSet::new();
    init_rules(&mut r);
    mark_rule_rules(&mut r);
    compare_state_rules(&mut r);
    state_bit_matched_rules(&mut r);
    state_match_cleanup_rules(&mut r);
    state_match_restore_rules(&mut r);
    state_mismatch_rules(&mut r);
    compare_symbol_rules(&mut r);
    symbol_bit_matched_rules(&mut r);
    symbol_mismatch_rules(&mut r);
    symbol_mismatch_restore_rules(&mut r);
    symbol_match_cleanup_rules(&mut r);
    symbol_match_restore_rules(&mut r);
    copy_state_rules(&mut r);
    copy_state_next_rules(&mut r);
    copy_state_done_rules(&mut r);
    copy_symbol_nav_rules(&mut r);
    copy_symbol_rules(&mut r);
    copy_symbol_next_rules(&mut r);
    copy_symbol_done_rules(&mut r);
    read_direction_rules(&mut r);
    move_right_rules(&mut r);
    extend_tape_rules(&mut r);
    extend_tape_carry_rules(&mut r);
    extend_tape_done_rules(&mut r);
    move_left_rules(&mut r);
    restart_rules(&mut r);
    check_accept_rules(&mut r);
    accept_bit_matched_rules(&mut r);
    accept_bit_mismatch_rules(&mut r);
    accept_next_entry_rules(&mut r);
    accept_rules(&mut r);
    reject_rules(&mut r);
    r.rules
}

/// The description of the universal machine.
pub type MyUtmSpec = SimpleTuringMachineSpec<State, Symbol>;

/// The universal machine: it starts in `Init`, accepts in `Accept`, its
/// blank is `Blank`, and its rules are those of `utm_rule_list`, the last
/// given for a state and symbol applying; the halting states have none.
pub fn make_utm_spec() -> (r: MyUtmSpec)
    ensures
        r.inv(),
        closed(&r),
        r.spec_initial() == Init,
        r.spec_blank() == Blank,
        forall|s: State| #[trigger] r.spec_accepting(s) == (s == Accept),
        r.spec_states().len() == N_UTM_STATES,
        forall|i: int| 0 <= i < N_UTM_STATES ==> (#[trigger] r.spec_states()[i]).spec_index() == i,
        r.spec_symbols().len() == 16,
        forall|i: int| 0 <= i < 16 ==> (#[trigger] r.spec_symbols()[i]).spec_index() == utm_symbol_list_index(i),
        forall|s: State, y: Symbol| (#[trigger] r.spec_transition(s, y)) is Some ==> block_of(s) < 33,
        forall|y: Symbol| #[trigger] r.spec_transition(Accept, y) is None && r.spec_transition(Reject, y) is None,
        forall|s: State, y: Symbol| #[trigger] r.spec_transition(s, y) == lookup_rules(utm_rule_list(), s, y),
{
    let rules = build_utm_rules();
    let states = all_utm_states();
    let symbols = all_utm_symbols();
    let accepting = vec![Accept];
    proof {
        let sl = MyUtmSpec::state_labels(Init, accepting@, rules@, states@);
        let yl = MyUtmSpec::symbol_labels(Blank, rules@, symbols@);
        assert forall|i: int| 0 <= i < sl.len() implies (#[trigger] sl[i]).spec_index() < N_UTM_STATES by {
            lemma_state_index_bound(sl[i]);
        }
        assert forall|i: int| 0 <= i < yl.len() implies (#[trigger] yl[i]).spec_index() < 16 by {
            lemma_symbol_index_bound(yl[i]);
        }
        crate::tm::lemma_index_bound_at_most(sl, N_UTM_STATES as nat);
        crate::tm::lemma_index_bound_at_most(yl, 16);
        assert(index_bound(sl) * index_bound(yl) <= 170 * 16) by (nonlinear_arith)
            requires
                index_bound(sl) <= 170,
                index_bound(yl) <= 16,
        ;
    }
    let r = SimpleTuringMachineSpec::new(Init, accepting, Blank, rules, states, symbols);
    proof {
        assert forall|s: State| r.spec_states().contains(s) by {
            lemma_state_list_complete(r.spec_states(), s);
        }
        assert forall|y: Symbol| r.spec_symbols().contains(y) by {
            lemma_symbol_list_complete(r.spec_symbols(), y);
        }
        lemma_state_list_complete(r.spec_states(), Init);
        lemma_symbol_list_complete(r.spec_symbols(), Blank);
        assert forall|s: State, y: Symbol| (#[trigger] r.spec_transition(s, y)) is Some implies block_of(s) < 33 by {
            crate::tm::lemma_lookup_rules_found(rules@, s, y);
        }
        assert forall|y: Symbol| #[trigger] r.spec_transition(Accept, y) is None && r.spec_transition(Reject, y) is None by {
            crate::tm::lemma_lookup_rules_found(rules@, Accept, y);
            crate::tm::lemma_lookup_rules_found(rules@, Reject, y);
        }
        assert(accepting@ == seq![Accept]);
    }
    r
}

/// A tick: the machine has just entered `DoneSeekHome`, which it does once
/// per simulated step of its guest.
pub open spec fn spec_is_tick_boundary(prev_state: State, state: State) -> bool {
    prev_state != state && state == DoneSeekHome
}

impl SimpleTuringMachineSpec<State, Symbol> {
    /// Whether going from `prev_state` to `state` completes a simulated
    /// step of the guest.
    pub fn is_tick_boundary(&self, prev_state: State, state: State) -> (r: bool)
        ensures
            r == spec_is_tick_boundary(prev_state, state),
    {
        prev_state != state && state == DoneSeekHome
    }

    /// Encodes a running guest for this machine, with the guest's rules in
    /// its own order and codes given by its own state and symbol lists.
    pub fn encode<'a, Guest: TuringMachineSpec>(&self, guest: &RunningTuringMachine<'a, Guest>) -> (r: Vec<Symbol>)
        requires
            guest.spec.inv(),
            closed(guest.spec),
            tm_within(guest.spec.spec_states(), guest.spec.spec_symbols(), guest.state, guest.tape@),
        ensures
            r@ == encode_spec(
                guest.spec,
                grouped(guest.spec.spec_rules(), guest.spec.spec_states(), guest.spec.spec_symbols()),
                guest.state,
                guest.tape@,
            ),
    {
        let hints = MyUtmSpecOptimizationHints::guess(guest.spec);
        hints.encode(guest)
    }

    /// Encodes a running guest for this machine with the rule order of the
    /// given hints.
    pub fn encode_optimized<'a, Guest: TuringMachineSpec>(
        &self,
        guest: &RunningTuringMachine<'a, Guest>,
        hints: &MyUtmSpecOptimizationHints<'a, Guest>,
    ) -> (r: Vec<Symbol>)
        requires
            hints.wf(),
            *guest.spec == *hints.guest,
            tm_within(hints.guest.spec_states(), hints.guest.spec_symbols(), guest.state, guest.tape@),
        ensures
            r@ == encode_spec(hints.guest, rules_view(hints.rules@), guest.state, guest.tape@),
    {
        hints.encode(guest)
    }

    /// Reads a guest back from a tape of this machine.
    pub fn decode<'a, Guest: TuringMachineSpec>(&self, guest: &'a Guest, tape: &[Symbol]) -> (r: Result<
        RunningTuringMachine<'a, Guest>,
        DecodeError,
    >)
        requires
            guest.inv(),
            closed(guest),
            tape_decodable(guest.spec_states(), guest.spec_symbols(), tape@),
        ensures
            hash_positions(tape@).len() < 4 ==> r == Err::<RunningTuringMachine<'a, Guest>, DecodeError>(
                DecodeError::TooFewDelimiters { found: hash_positions(tape@).len() as usize },
            ),
            hash_positions(tape@).len() >= 4 ==> (r matches Ok(tm) && tm.spec == guest && tm.config()
                == decoded_guest(guest.spec_states(), guest.spec_symbols(), tape@)),
    {
        let hints = MyUtmSpecOptimizationHints::guess(guest);
        hints.decode(tape)
    }
}

/// Encoding with hints whose rules are the guest's own, in the guest's
/// order (the hints that `guess` gives), writes the plain encoding.
pub proof fn lemma_encode_with_guessed_hints<'a, Guest: TuringMachineSpec>(
    hints: &MyUtmSpecOptimizationHints<'a, Guest>,
    state: Guest::State,
    tape: Seq<Guest::Symbol>,
)
    requires
        hints.rules_in_order(),
    ensures
        encode_spec(hints.guest, rules_view(hints.rules@), state, tape) == encode_spec(
            hints.guest,
            grouped(hints.guest.spec_rules(), hints.guest.spec_states(), hints.guest.spec_symbols()),
            state,
            tape,
        ),
{
}

/// A run of the universal machine that stops at a tick, taking at least
/// one step: like `run_until_config`, but the tape is grown with `blank`
/// after each step as well, and the run stops when a step completes a
/// simulated guest step.
pub open spec fn run_until_tick_config(
    spec: &MyUtmSpec,
    blank: Symbol,
    c: TmConfig<State, Symbol>,
    prev_state: State,
    fuel: nat,
    done: nat,
) -> (Result<usize, RunUntilResult>, TmConfig<State, Symbol>)
    decreases fuel,
{
    if fuel == 0 {
        (Err(RunUntilResult::StepLimit), c)
    } else {
        let c1 = TmConfig { state: c.state, pos: c.pos, tape: pad_tape(c.tape, c.pos, blank) };
        match step_config(spec, c1) {
            Some(c2) => {
                let c3 = TmConfig { state: c2.state, pos: c2.pos, tape: pad_tape(c2.tape, c2.pos, blank) };
                if spec_is_tick_boundary(prev_state, c3.state) {
                    (Ok((done + 1) as usize), c3)
                } else {
                    run_until_tick_config(spec, blank, c3, c3.state, (fuel - 1) as nat, done + 1)
                }
            },
            None => if spec.spec_accepting(c1.state) {
                (Err(RunUntilResult::Accepted { num_steps: (done + 1) as usize }), c1)
            } else {
                (Err(RunUntilResult::Rejected { num_steps: (done + 1) as usize }), c1)
            },
        }
    }
}

/// Grows the tape with `blank` until the head is on it.
fn pad_with(tm: &mut RunningTuringMachine<MyUtmSpec>, blank: Symbol)
    ensures
        final(tm).spec == old(tm).spec,
        final(tm).state == old(tm).state,
        final(tm).pos == old(tm).pos,
        final(tm).tape@ == pad_tape(old(tm).tape@, old(tm).pos as nat, blank),
{
    let ghost t0 = tm.tape@;
    while tm.tape.len() <= tm.pos
        invariant
            tm.spec == old(tm).spec,
            tm.pos == old(tm).pos,
            tm.state == old(tm).state,
            t0 == old(tm).tape@,
            t0.len() <= tm.pos ==> tm.tape@ =~= t0 + Seq::new((tm.tape@.len() - t0.len()) as nat, |i: int| blank),
            t0.len() <= tm.pos ==> tm.tape@.len() <= tm.pos + 1,
            t0.len() > tm.pos ==> tm.tape@ == t0,
        decreases tm.pos + 1 - tm.tape@.len(),
    {
        tm.tape.push(blank);
    }
}

/// Steps the universal machine until a tick (or until it halts), taking at
/// least one step; returns the number of steps taken, or why it stopped
/// first.
pub fn run_until_inner_step(
    spec: &MyUtmSpec,
    tm: &mut RunningTuringMachine<MyUtmSpec>,
    max_steps: usize,
) -> (r: Result<usize, RunUntilResult>)
    requires
        old(tm).spec.inv(),
        spec.inv(),
    ensures
        final(tm).spec == old(tm).spec,
        (r, final(tm).config()) == run_until_tick_config(
            old(tm).spec,
            spec.spec_blank(),
            old(tm).config(),
            old(tm).state,
            max_steps as nat,
            0,
        ),
{
    let blank = spec.blank();
    let mut prev_state = tm.state;
    let mut done: usize = 0;
    while done < max_steps
        invariant
            done <= max_steps,
            tm.spec == old(tm).spec,
            tm.spec.inv(),
            blank == spec.spec_blank(),
            run_until_tick_config(tm.spec, blank, old(tm).config(), old(tm).state, max_steps as nat, 0)
                == run_until_tick_config(tm.spec, blank, tm.config(), prev_state, (max_steps - done) as nat, done as nat),
        decreases max_steps - done,
    {
        let step_count = done + 1;
        pad_with(tm, blank);
        match step(tm) {
            RunningTMStatus::Running => {
                pad_with(tm, blank);
                if spec.is_tick_boundary(prev_state, tm.state) {
                    return Ok(step_count);
                }
                prev_state = tm.state;
            },
            RunningTMStatus::Accepted => {
                return Err(RunUntilResult::Accepted { num_steps: step_count });
            },
            RunningTMStatus::Rejected => {
                return Err(RunUntilResult::Rejected { num_steps: step_count });
            },
        }
        done = step_count;
    }
    Err(RunUntilResult::StepLimit)
}

} // verus!
