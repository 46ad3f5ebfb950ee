//! The universal machine's transition for each state and symbol, read off
//! the sections of its rule list: `utm_delta`, and the proof that looking
//! a state and a symbol up in the rule list gives it.
use vstd::prelude::*;

use crate::tm::{lookup_rules, Dir, Rule};
use crate::utm::{
    accept_bit_matched_rules_from, accept_bit_mismatch_rules_from, accept_next_entry_rules_from, accept_rules_from, carry_blank_bit_from, check_accept_bit_from, check_accept_rules_from, compare_state_bit_from, compare_state_rules_from, compare_symbol_bit_from, compare_symbol_rules_from, copy_state_bit_from, copy_state_done_rules_from, copy_state_next_rules_from, copy_state_rules_from, copy_symbol_bit_from, copy_symbol_done_rules_from, copy_symbol_nav_rules_from, copy_symbol_next_rules_from, copy_symbol_rules_from, extend_tape_carry_rules_from, extend_tape_done_rules_from, extend_tape_rules_from, init_rules_from, mark_rule_rules_from, move_left_rules_from, move_right_rules_from, read_direction_rules_from, reject_rules_from, restart_rules_from, state_bit_matched_rules_from, state_match_cleanup_rules_from, state_match_restore_rules_from, state_mismatch_rules_from, symbol_bit_matched_rules_from, symbol_match_cleanup_rules_from, symbol_match_restore_rules_from, symbol_mismatch_restore_rules_from, symbol_mismatch_rules_from, home_scan_symbols, scan_rules, seek_home_rules, seek_star_rules, star_scan_symbols, utm_rule_list,
};
use crate::utm_symbols::{State, Symbol};
use crate::utm_symbols::State::{
    Accept, AcceptSeekHome, AccFinalHome, AccRestAcc, AccRestSkip1, AccRestSkip2,
    AccRestState, ApplyReadNst, ChkAccBack2acc, ChkAccC0, ChkAccC0Find, ChkAccC0Sk1,
    ChkAccC0Sk2, ChkAccC1, ChkAccC1Find, ChkAccC1Sk1, ChkAccC1Sk2, ChkAccDoRest,
    ChkAccDoRest2, ChkAccFailBit, ChkAccInit, ChkAccIntoAcc, ChkAccNextEntry, ChkAccOk,
    ChkAccOkAcc, ChkAccOkSk1, ChkAccOkSk2, ChkAccOkFind, ChkAccOkSkip, ChkAccRestState,
    CmpStC0, CmpStC0Find, CmpStC1, CmpStC1Find, CmpStFail, CmpStNextbit, CmpStOk, CmpStRead,
    CmpSymC0, CmpSymC0Fb, CmpSymC0Fh, CmpSymC0S1, CmpSymC1, CmpSymC1Fb, CmpSymC1Fh,
    CmpSymC1S1, CmpSymFail, CmpSymNb2, CmpSymNextbit, CmpSymOk, CmpSymRead, CpNstC0, CpNstC0W,
    CpNstC1, CpNstC1W, CpNstDone, CpNstNext, CpNstNext2, CpNstNext3, CpNstRestDo,
    CpNstRestNav, CpNstRet, CpNsymC0, CpNsymC0Fb, CpNsymC0Fh, CpNsymC0S1, CpNsymC0S2,
    CpNsymC0S3, CpNsymC1, CpNsymC1Fb, CpNsymC1Fh, CpNsymC1S1, CpNsymC1S2, CpNsymC1S3,
    CpNsymDone, CpNsymFn2, CpNsymFn3, CpNsymFn4, CpNsymFnext, CpNsymNav, CpNsymNav2,
    CpNsymNav3, CpNsymRead, CpNsymRestNav, CpNsymRet, CpNsymRnDo, CpNsymRnFh, CpNsymRnS1,
    CpNsymRnS2, CpNsymRnS3, CpNsymSeek, DoneSeekHome, Init, InitSeekEnd, InitSkip, MarkRule,
    MarkRuleNoMatch, MlFindHead, MlMark, MlNav, MlRestore, MlS1, MlS2, MlS3, MoveLeft,
    MoveRight, MrExtBc0, MrExtBc1, MrExtBcNext, MrExtBcRet, MrExtendInit, MrExtH1, MrExtH2,
    MrExtH3, MrExtHome, MrExtNavToHead, MrExtReadBlank, MrExtRestBlank, MrExtToBlank,
    MrExtWriteHead, MrFindHead, MrNav, MrPlaceHead, MrS1, MrS2, MrS3, MrSkipCell, NpMatchPre,
    NpNextbit, NpReadDir, NpSmcHandler, NpSymfRestore, RdRead, RdSk2, RdSk3, RdSk4,
    RdSkipToDir, ReadDir, Reject, RejectSeekHome, RejFinalHome, RejRestAcc, RejRestSkip1,
    RejRestSkip2, RejRestState, SmcFh, SmcRestDone, SmcRestHead, SmcRestSym, SmcS1, SmcSkipSt,
    StfFindStar, StfGoPrev, StfRestoreRule, StfRestoreState, StfSkipRest, StMatchCleanup,
    StmBackToRule, StmGoLeft, StmGotoState, StmRestoreRule, StmRestoreState, SymfDeactivate,
    SymfRestHead, SymfRestSym, SymfSeekStar, SymfSkipRest, SymfSkipSt, SymMatchCleanup,
    SymSkipState
};
use crate::utm_symbols::Symbol::{
    Blank, Zero, One, X, Y, Pipe, Semi, Comma, Caret, L, R, Dot, Star, Gt, Dollar
};


verus! {

/// Whether `y` is one of `syms`.
pub open spec fn listed(syms: Seq<Symbol>, y: Symbol) -> bool
    decreases syms.len(),
{
    if syms.len() == 0 {
        false
    } else {
        syms.last() == y || listed(syms.drop_last(), y)
    }
}

/// Looking up after a push: the pushed rule, where it is for the state and
/// symbol.
pub proof fn lemma_lookup_push(a: Seq<Rule<State, Symbol>>, r: Rule<State, Symbol>, s: State, y: Symbol)
    ensures
        lookup_rules(a.push(r), s, y) == if r.0 == s && r.1 == y {
            Some((r.2, r.3, r.4))
        } else {
            lookup_rules(a, s, y)
        },
{
    assert(a.push(r).drop_last() =~= a);
}

/// Looking up after scan rules: the scan rule, where the state is the
/// scanning one and the symbol is listed.
pub proof fn lemma_lookup_scan(a: Seq<Rule<State, Symbol>>, st: State, syms: Seq<Symbol>, d: Dir, s: State, y: Symbol)
    ensures
        lookup_rules(a + scan_rules(st, syms, d), s, y) == if s == st && listed(syms, y) {
            Some((st, y, d))
        } else {
            lookup_rules(a, s, y)
        },
    decreases syms.len(),
{
    if syms.len() == 0 {
        assert(a + scan_rules(st, syms, d) =~= a);
    } else {
        let init = syms.drop_last();
        lemma_lookup_scan(a, st, init, d, s, y);
        assert(a + scan_rules(st, syms, d) =~= (a + scan_rules(st, init, d)).push((st, syms.last(), st, syms.last(), d)));
        lemma_lookup_push(a + scan_rules(st, init, d), (st, syms.last(), st, syms.last(), d), s, y);
    }
}

/// The rule that `seek_home_rules` gives, or `rest`.
pub open spec fn seek_home_delta(from: State, to: State, s: State, y: Symbol, rest: Option<(State, Symbol, Dir)>) -> Option<
    (State, Symbol, Dir),
> {
    if s == from && y == Dollar {
        Some((to, Dollar, Dir::Right))
    } else if s == from && listed(home_scan_symbols(), y) {
        Some((from, y, Dir::Left))
    } else {
        rest
    }
}

/// The rule that `seek_star_rules` gives, or `rest`.
pub open spec fn seek_star_delta(from: State, to: State, s: State, y: Symbol, rest: Option<(State, Symbol, Dir)>) -> Option<
    (State, Symbol, Dir),
> {
    if s == from && y == Star {
        Some((to, Star, Dir::Right))
    } else if s == from && listed(star_scan_symbols(), y) {
        Some((from, y, Dir::Left))
    } else {
        rest
    }
}

/// Looking up after the rules of `seek_home`.
pub proof fn lemma_lookup_seek_home(a: Seq<Rule<State, Symbol>>, from: State, to: State, s: State, y: Symbol)
    ensures
        lookup_rules(a + seek_home_rules(from, to), s, y) == seek_home_delta(from, to, s, y, lookup_rules(a, s, y)),
{
    let r = (from, Dollar, to, Dollar, Dir::Right);
    lemma_lookup_scan(a, from, home_scan_symbols(), Dir::Left, s, y);
    assert(a + seek_home_rules(from, to) =~= (a + scan_rules(from, home_scan_symbols(), Dir::Left)).push(r));
    lemma_lookup_push(a + scan_rules(from, home_scan_symbols(), Dir::Left), r, s, y);
}

/// Looking up after the rules of `seek_star`.
pub proof fn lemma_lookup_seek_star(a: Seq<Rule<State, Symbol>>, from: State, to: State, s: State, y: Symbol)
    ensures
        lookup_rules(a + seek_star_rules(from, to), s, y) == seek_star_delta(from, to, s, y, lookup_rules(a, s, y)),
{
    let r = (from, Star, to, Star, Dir::Right);
    lemma_lookup_scan(a, from, star_scan_symbols(), Dir::Left, s, y);
    assert(a + seek_star_rules(from, to) =~= (a + scan_rules(from, star_scan_symbols(), Dir::Left)).push(r));
    lemma_lookup_push(a + scan_rules(from, star_scan_symbols(), Dir::Left), r, s, y);
}

/// The rule that `init_rules` gives a state and a symbol, or `rest` where
/// it gives none.
pub open spec fn init_rules_delta(qs: State, qy: Symbol, rest: Option<(State, Symbol, Dir)>) -> Option<(State, Symbol, Dir)> {
    let cur = rest;
    let cur = if qs == Init && qy == Dollar { Some((Init, Dollar, Dir::Right)) } else { cur };
    let cur = if qs == Init && listed(seq![Zero, One, Semi], qy) { Some((Init, qy, Dir::Right)) } else { cur };
    let cur = if qs == Init && qy == Symbol::Hash { Some((InitSkip, Symbol::Hash, Dir::Right)) } else { cur };
    let cur = if qs == InitSkip && listed(seq![Zero, One], qy) { Some((InitSkip, qy, Dir::Right)) } else { cur };
    let cur = if qs == InitSkip && qy == Symbol::Hash { Some((InitSeekEnd, Symbol::Hash, Dir::Right)) } else { cur };
    let s = InitSeekEnd;
    let syms = (seq![Zero, One, X, Y, Pipe, L, R, Comma] + seq![Semi, Dot, Gt]);
    let cur = if qs == s && listed(syms, qy) { Some((s, qy, Dir::Right)) } else { cur };
    let cur = if qs == s && qy == Symbol::Hash { Some((MarkRule, Symbol::Hash, Dir::Left)) } else { cur };
    cur
}

/// The rule that `mark_rule_rules` gives a state and a symbol, or `rest` where
/// it gives none.
pub open spec fn mark_rule_rules_delta(qs: State, qy: Symbol, rest: Option<(State, Symbol, Dir)>) -> Option<(State, Symbol, Dir)> {
    let cur = rest;
    let mr = MarkRule;
    let cur = if qs == mr && listed(seq![Zero, One, X, Y, Pipe, L, R, Comma], qy) { Some((mr, qy, Dir::Left)) } else { cur };
    let cur = if qs == mr && qy == Semi { Some((mr, Semi, Dir::Left)) } else { cur };
    let cur = if qs == mr && qy == Dot { Some((CmpStRead, Star, Dir::Right)) } else { cur };
    let cur = if qs == mr && qy == Symbol::Hash { Some((MarkRuleNoMatch, Symbol::Hash, Dir::Left)) } else { cur };
    let cur = seek_home_delta(MarkRuleNoMatch, ChkAccInit, qs, qy, cur);
    cur
}

/// The rule that `compare_state_bit` gives a state and a symbol, or `rest` where
/// it gives none.
pub open spec fn compare_state_bit_delta(c_sym: Symbol, carry: State, find: State, qs: State, qy: Symbol, rest: Option<(State, Symbol, Dir)>) -> Option<(State, Symbol, Dir)> {
    let cur = rest;
    let cur = if qs == carry && listed(seq![Zero, One, X, Y, Pipe, L, R, Semi, Dot, Star, Comma, Gt], qy) { Some((carry, qy, Dir::Right)) } else { cur };
    let cur = if qs == carry && qy == Symbol::Hash { Some((find, Symbol::Hash, Dir::Right)) } else { cur };
    let cur = if qs == find && listed(seq![X, Y], qy) { Some((find, qy, Dir::Right)) } else { cur };
    let cur = if c_sym == Zero {
        let cur = if qs == find && qy == Zero { Some((CmpStOk, X, Dir::Left)) } else { cur };
        let cur = if qs == find && qy == One { Some((CmpStFail, Y, Dir::Left)) } else { cur };
        cur
    } else {
        let cur = if qs == find && qy == One { Some((CmpStOk, Y, Dir::Left)) } else { cur };
        let cur = if qs == find && qy == Zero { Some((CmpStFail, X, Dir::Left)) } else { cur };
        cur
    };
    cur
}

/// The rule that `compare_state_rules` gives a state and a symbol, or `rest` where
/// it gives none.
pub open spec fn compare_state_rules_delta(qs: State, qy: Symbol, rest: Option<(State, Symbol, Dir)>) -> Option<(State, Symbol, Dir)> {
    let cur = rest;
    let cur = if qs == CmpStRead && qy == Zero { Some((CmpStC0, X, Dir::Right)) } else { cur };
    let cur = if qs == CmpStRead && qy == One { Some((CmpStC1, Y, Dir::Right)) } else { cur };
    let cur = if qs == CmpStRead && qy == Pipe { Some((StMatchCleanup, Pipe, Dir::Right)) } else { cur };
    let cur = if qs == CmpStRead && qy == Comma { Some((StMatchCleanup, Comma, Dir::Right)) } else { cur };
    let cur = compare_state_bit_delta(Zero, CmpStC0, CmpStC0Find, qs, qy, cur);
    let cur = compare_state_bit_delta(One, CmpStC1, CmpStC1Find, qs, qy, cur);
    cur
}

/// The rule that `state_bit_matched_rules` gives a state and a symbol, or `rest` where
/// it gives none.
pub open spec fn state_bit_matched_rules_delta(qs: State, qy: Symbol, rest: Option<(State, Symbol, Dir)>) -> Option<(State, Symbol, Dir)> {
    let cur = rest;
    let cur = seek_star_delta(CmpStOk, CmpStNextbit, qs, qy, cur);
    let nb = CmpStNextbit;
    let cur = if qs == nb && listed(seq![X, Y], qy) { Some((nb, qy, Dir::Right)) } else { cur };
    let cur = if qs == nb && qy == Zero { Some((CmpStC0, X, Dir::Right)) } else { cur };
    let cur = if qs == nb && qy == One { Some((CmpStC1, Y, Dir::Right)) } else { cur };
    let cur = if qs == nb && qy == Pipe { Some((StMatchCleanup, Pipe, Dir::Right)) } else { cur };
    let cur = if qs == nb && qy == Comma { Some((StMatchCleanup, Comma, Dir::Right)) } else { cur };
    cur
}

/// The rule that `state_match_cleanup_rules` gives a state and a symbol, or `rest` where
/// it gives none.
pub open spec fn state_match_cleanup_rules_delta(qs: State, qy: Symbol, rest: Option<(State, Symbol, Dir)>) -> Option<(State, Symbol, Dir)> {
    let cur = rest;
    let smc = StMatchCleanup;
    let cur = if qs == smc && qy == Zero { Some((StmGoLeft, Zero, Dir::Left)) } else { cur };
    let cur = if qs == smc && qy == One { Some((StmGoLeft, One, Dir::Left)) } else { cur };
    let cur = if qs == smc && qy == Pipe { Some((StmGoLeft, Pipe, Dir::Left)) } else { cur };
    let gl = StmGoLeft;
    let cur = if qs == gl && qy == Pipe { Some((StmRestoreRule, Pipe, Dir::Left)) } else { cur };
    let cur = if qs == gl && qy == Comma { Some((StmRestoreRule, Comma, Dir::Left)) } else { cur };
    let cur = if qs == gl && listed(seq![Zero, One], qy) { Some((gl, qy, Dir::Left)) } else { cur };
    let rr = StmRestoreRule;
    let cur = if qs == rr && qy == X { Some((rr, Zero, Dir::Left)) } else { cur };
    let cur = if qs == rr && qy == Y { Some((rr, One, Dir::Left)) } else { cur };
    let cur = if qs == rr && listed(seq![Zero, One], qy) { Some((rr, qy, Dir::Left)) } else { cur };
    let cur = if qs == rr && qy == Star { Some((StmGotoState, Star, Dir::Right)) } else { cur };
    cur
}

/// The rule that `state_match_restore_rules` gives a state and a symbol, or `rest` where
/// it gives none.
pub open spec fn state_match_restore_rules_delta(qs: State, qy: Symbol, rest: Option<(State, Symbol, Dir)>) -> Option<(State, Symbol, Dir)> {
    let cur = rest;
    let gs = StmGotoState;
    let syms = (seq![Zero, One, X, Y, Pipe, L, R, Comma] + seq![Semi, Dot, Gt]);
    let cur = if qs == gs && listed(syms, qy) { Some((gs, qy, Dir::Right)) } else { cur };
    let cur = if qs == gs && qy == Symbol::Hash { Some((StmRestoreState, Symbol::Hash, Dir::Right)) } else { cur };
    let rs = StmRestoreState;
    let cur = if qs == rs && qy == X { Some((rs, Zero, Dir::Right)) } else { cur };
    let cur = if qs == rs && qy == Y { Some((rs, One, Dir::Right)) } else { cur };
    let cur = if qs == rs && listed(seq![Zero, One], qy) { Some((rs, qy, Dir::Right)) } else { cur };
    let cur = if qs == rs && qy == Symbol::Hash { Some((StmBackToRule, Symbol::Hash, Dir::Left)) } else { cur };
    let cur = seek_star_delta(StmBackToRule, SymSkipState, qs, qy, cur);
    let ss = SymSkipState;
    let cur = if qs == ss && listed(seq![Zero, One], qy) { Some((ss, qy, Dir::Right)) } else { cur };
    let cur = if qs == ss && qy == Pipe { Some((CmpSymRead, Pipe, Dir::Right)) } else { cur };
    let cur = if qs == ss && qy == Comma { Some((CmpSymRead, Caret, Dir::Right)) } else { cur };
    cur
}

/// The rule that `state_mismatch_rules` gives a state and a symbol, or `rest` where
/// it gives none.
pub open spec fn state_mismatch_rules_delta(qs: State, qy: Symbol, rest: Option<(State, Symbol, Dir)>) -> Option<(State, Symbol, Dir)> {
    let cur = rest;
    let sf = CmpStFail;
    let cur = if qs == sf && listed(seq![Zero, One, X, Y], qy) { Some((sf, qy, Dir::Left)) } else { cur };
    let cur = if qs == sf && qy == Symbol::Hash { Some((StfRestoreState, Symbol::Hash, Dir::Right)) } else { cur };
    let rs = StfRestoreState;
    let cur = if qs == rs && qy == X { Some((rs, Zero, Dir::Right)) } else { cur };
    let cur = if qs == rs && qy == Y { Some((rs, One, Dir::Right)) } else { cur };
    let cur = if qs == rs && listed(seq![Zero, One], qy) { Some((rs, qy, Dir::Right)) } else { cur };
    let cur = if qs == rs && qy == Symbol::Hash { Some((StfFindStar, Symbol::Hash, Dir::Left)) } else { cur };
    let syms = (seq![Zero, One, X, Y] + seq![Semi, Symbol::Hash, Pipe, Dot, L, R, Comma, Gt]);
    let cur = if qs == StfFindStar && listed(syms, qy) { Some((StfFindStar, qy, Dir::Left)) } else { cur };
    let cur = if qs == StfFindStar && qy == Star { Some((StfRestoreRule, Dot, Dir::Right)) } else { cur };
    let rr = StfRestoreRule;
    let cur = if qs == rr && qy == X { Some((rr, Zero, Dir::Right)) } else { cur };
    let cur = if qs == rr && qy == Y { Some((rr, One, Dir::Right)) } else { cur };
    let cur = if qs == rr && listed(seq![Zero, One], qy) { Some((rr, qy, Dir::Right)) } else { cur };
    let cur = if qs == rr && qy == Pipe { Some((StfGoPrev, Pipe, Dir::Left)) } else { cur };
    let cur = if qs == rr && qy == Comma { Some((StfGoPrev, Comma, Dir::Left)) } else { cur };
    let gp = StfGoPrev;
    let cur = if qs == gp && listed(seq![Zero, One], qy) { Some((gp, qy, Dir::Left)) } else { cur };
    let cur = if qs == gp && qy == Dot { Some((MarkRule, Dot, Dir::Left)) } else { cur };
    cur
}

/// The rule that `compare_symbol_bit` gives a state and a symbol, or `rest` where
/// it gives none.
pub open spec fn compare_symbol_bit_delta(c: u8, carry: State, s1: State, fh: State, fb: State, qs: State, qy: Symbol, rest: Option<(State, Symbol, Dir)>) -> Option<(State, Symbol, Dir)> {
    let cur = rest;
    let cur = if qs == carry && listed(seq![Zero, One, X, Y, Pipe, L, R, Semi, Dot, Star, Comma, Gt], qy) { Some((carry, qy, Dir::Right)) } else { cur };
    let cur = if qs == carry && qy == Symbol::Hash { Some((s1, Symbol::Hash, Dir::Right)) } else { cur };
    let cur = if qs == s1 && listed(seq![Zero, One, X, Y], qy) { Some((s1, qy, Dir::Right)) } else { cur };
    let cur = if qs == s1 && qy == Symbol::Hash { Some((fh, Symbol::Hash, Dir::Right)) } else { cur };
    let syms = (seq![Zero, One, X, Y] + seq![Comma]);
    let cur = if qs == fh && listed(syms, qy) { Some((fh, qy, Dir::Right)) } else { cur };
    let cur = if qs == fh && qy == Caret { Some((fb, Caret, Dir::Right)) } else { cur };
    let cur = if qs == fb && listed(seq![X, Y], qy) { Some((fb, qy, Dir::Right)) } else { cur };
    let cur = if c == 0 {
        let cur = if qs == fb && qy == Zero { Some((CmpSymOk, X, Dir::Left)) } else { cur };
        let cur = if qs == fb && qy == One { Some((CmpSymFail, Y, Dir::Left)) } else { cur };
        cur
    } else {
        let cur = if qs == fb && qy == One { Some((CmpSymOk, Y, Dir::Left)) } else { cur };
        let cur = if qs == fb && qy == Zero { Some((CmpSymFail, X, Dir::Left)) } else { cur };
        cur
    };
    cur
}

/// The rule that `compare_symbol_rules` gives a state and a symbol, or `rest` where
/// it gives none.
pub open spec fn compare_symbol_rules_delta(qs: State, qy: Symbol, rest: Option<(State, Symbol, Dir)>) -> Option<(State, Symbol, Dir)> {
    let cur = rest;
    let cur = if qs == CmpSymRead && qy == Zero { Some((CmpSymC0, X, Dir::Right)) } else { cur };
    let cur = if qs == CmpSymRead && qy == One { Some((CmpSymC1, Y, Dir::Right)) } else { cur };
    let cur = if qs == CmpSymRead && qy == Pipe { Some((SymMatchCleanup, Pipe, Dir::Right)) } else { cur };
    let cur = compare_symbol_bit_delta(0, CmpSymC0, CmpSymC0S1, CmpSymC0Fh, CmpSymC0Fb, qs, qy, cur);
    let cur = compare_symbol_bit_delta(1, CmpSymC1, CmpSymC1S1, CmpSymC1Fh, CmpSymC1Fb, qs, qy, cur);
    cur
}

/// The rule that `symbol_bit_matched_rules` gives a state and a symbol, or `rest` where
/// it gives none.
pub open spec fn symbol_bit_matched_rules_delta(qs: State, qy: Symbol, rest: Option<(State, Symbol, Dir)>) -> Option<(State, Symbol, Dir)> {
    let cur = rest;
    let cur = seek_star_delta(CmpSymOk, CmpSymNextbit, qs, qy, cur);
    let nb = CmpSymNextbit;
    let cur = if qs == nb && listed(seq![Zero, One, Comma], qy) { Some((nb, qy, Dir::Right)) } else { cur };
    let cur = if qs == nb && qy == Pipe { Some((CmpSymNb2, Pipe, Dir::Right)) } else { cur };
    let cur = if qs == nb && qy == Caret { Some((NpNextbit, Caret, Dir::Right)) } else { cur };
    let nb2 = CmpSymNb2;
    let cur = if qs == nb2 && listed(seq![X, Y], qy) { Some((nb2, qy, Dir::Right)) } else { cur };
    let cur = if qs == nb2 && qy == Zero { Some((CmpSymC0, X, Dir::Right)) } else { cur };
    let cur = if qs == nb2 && qy == One { Some((CmpSymC1, Y, Dir::Right)) } else { cur };
    let cur = if qs == nb2 && qy == Pipe { Some((SymMatchCleanup, Pipe, Dir::Right)) } else { cur };
    let np = NpNextbit;
    let cur = if qs == np && listed(seq![X, Y], qy) { Some((np, qy, Dir::Right)) } else { cur };
    let cur = if qs == np && qy == Zero { Some((CmpSymC0, X, Dir::Right)) } else { cur };
    let cur = if qs == np && qy == One { Some((CmpSymC1, Y, Dir::Right)) } else { cur };
    let cur = if qs == np && qy == Comma { Some((NpMatchPre, Comma, Dir::Left)) } else { cur };
    let cur = if qs == np && qy == Pipe { Some((NpMatchPre, Pipe, Dir::Left)) } else { cur };
    let mp = NpMatchPre;
    let cur = if qs == mp && listed(seq![X, Y], qy) { Some((mp, qy, Dir::Left)) } else { cur };
    let cur = if qs == mp && qy == Caret { Some((SymMatchCleanup, Comma, Dir::Right)) } else { cur };
    cur
}

/// The rule that `symbol_mismatch_rules` gives a state and a symbol, or `rest` where
/// it gives none.
pub open spec fn symbol_mismatch_rules_delta(qs: State, qy: Symbol, rest: Option<(State, Symbol, Dir)>) -> Option<(State, Symbol, Dir)> {
    let cur = rest;
    let sf = CmpSymFail;
    let cur = if qs == sf && listed(seq![Zero, One, X, Y], qy) { Some((sf, qy, Dir::Left)) } else { cur };
    let cur = if qs == sf && qy == Caret { Some((SymfRestHead, Caret, Dir::Right)) } else { cur };
    let rh = SymfRestHead;
    let cur = if qs == rh && qy == X { Some((rh, Zero, Dir::Right)) } else { cur };
    let cur = if qs == rh && qy == Y { Some((rh, One, Dir::Right)) } else { cur };
    let cur = if qs == rh && listed(seq![Zero, One], qy) { Some((rh, qy, Dir::Right)) } else { cur };
    let cur = if qs == rh && qy == Comma { Some((SymfSeekStar, Comma, Dir::Left)) } else { cur };
    let cur = if qs == rh && qy == Blank { Some((SymfSeekStar, Blank, Dir::Left)) } else { cur };
    let cur = seek_star_delta(SymfSeekStar, SymfSkipSt, qs, qy, cur);
    let ss = SymfSkipSt;
    let cur = if qs == ss && listed(seq![Zero, One, Comma], qy) { Some((ss, qy, Dir::Right)) } else { cur };
    let cur = if qs == ss && qy == Pipe { Some((SymfRestSym, Pipe, Dir::Right)) } else { cur };
    let cur = if qs == ss && qy == Caret { Some((NpSymfRestore, Comma, Dir::Right)) } else { cur };
    cur
}

/// The rule that `symbol_mismatch_restore_rules` gives a state and a symbol, or `rest` where
/// it gives none.
pub open spec fn symbol_mismatch_restore_rules_delta(qs: State, qy: Symbol, rest: Option<(State, Symbol, Dir)>) -> Option<(State, Symbol, Dir)> {
    let cur = rest;
    let nr = NpSymfRestore;
    let cur = if qs == nr && qy == X { Some((nr, Zero, Dir::Right)) } else { cur };
    let cur = if qs == nr && qy == Y { Some((nr, One, Dir::Right)) } else { cur };
    let cur = if qs == nr && listed(seq![Zero, One], qy) { Some((nr, qy, Dir::Right)) } else { cur };
    let cur = if qs == nr && qy == Comma { Some((CmpSymRead, Caret, Dir::Right)) } else { cur };
    let cur = if qs == nr && qy == Pipe { Some((SymfDeactivate, Pipe, Dir::Left)) } else { cur };
    let rs = SymfRestSym;
    let cur = if qs == rs && qy == X { Some((rs, Zero, Dir::Right)) } else { cur };
    let cur = if qs == rs && qy == Y { Some((rs, One, Dir::Right)) } else { cur };
    let cur = if qs == rs && listed(seq![Zero, One], qy) { Some((rs, qy, Dir::Right)) } else { cur };
    let cur = if qs == rs && qy == Pipe { Some((SymfDeactivate, Pipe, Dir::Left)) } else { cur };
    let da = SymfDeactivate;
    let syms = (seq![Zero, One] + seq![Pipe, Comma]);
    let cur = if qs == da && listed(syms, qy) { Some((da, qy, Dir::Left)) } else { cur };
    let cur = if qs == da && qy == Star { Some((MarkRule, Dot, Dir::Left)) } else { cur };
    cur
}

/// The rule that `symbol_match_cleanup_rules` gives a state and a symbol, or `rest` where
/// it gives none.
pub open spec fn symbol_match_cleanup_rules_delta(qs: State, qy: Symbol, rest: Option<(State, Symbol, Dir)>) -> Option<(State, Symbol, Dir)> {
    let cur = rest;
    let sc = SymMatchCleanup;
    let syms = (seq![Zero, One, X, Y, Pipe, L, R, Comma] + seq![Semi, Dot, Gt]);
    let cur = if qs == sc && listed(syms, qy) { Some((sc, qy, Dir::Right)) } else { cur };
    let cur = if qs == sc && qy == Symbol::Hash { Some((SmcS1, Symbol::Hash, Dir::Right)) } else { cur };
    let s1 = SmcS1;
    let cur = if qs == s1 && listed(seq![Zero, One, X, Y], qy) { Some((s1, qy, Dir::Right)) } else { cur };
    let cur = if qs == s1 && qy == Symbol::Hash { Some((SmcFh, Symbol::Hash, Dir::Right)) } else { cur };
    let fh = SmcFh;
    let syms = (seq![Zero, One, X, Y] + seq![Comma]);
    let cur = if qs == fh && listed(syms, qy) { Some((fh, qy, Dir::Right)) } else { cur };
    let cur = if qs == fh && qy == Caret { Some((SmcRestHead, Caret, Dir::Right)) } else { cur };
    let rh = SmcRestHead;
    let cur = if qs == rh && qy == X { Some((rh, Zero, Dir::Right)) } else { cur };
    let cur = if qs == rh && qy == Y { Some((rh, One, Dir::Right)) } else { cur };
    let cur = if qs == rh && listed(seq![Zero, One], qy) { Some((rh, qy, Dir::Right)) } else { cur };
    let cur = if qs == rh && qy == Comma { Some((SmcRestDone, Comma, Dir::Left)) } else { cur };
    let cur = if qs == rh && qy == Blank { Some((SmcRestDone, Blank, Dir::Left)) } else { cur };
    cur
}

/// The rule that `symbol_match_restore_rules` gives a state and a symbol, or `rest` where
/// it gives none.
pub open spec fn symbol_match_restore_rules_delta(qs: State, qy: Symbol, rest: Option<(State, Symbol, Dir)>) -> Option<(State, Symbol, Dir)> {
    let cur = rest;
    let cur = seek_star_delta(SmcRestDone, SmcSkipSt, qs, qy, cur);
    let ss = SmcSkipSt;
    let cur = if qs == ss && listed(seq![Zero, One], qy) { Some((ss, qy, Dir::Right)) } else { cur };
    let cur = if qs == ss && qy == Pipe { Some((SmcRestSym, Pipe, Dir::Right)) } else { cur };
    let cur = if qs == ss && qy == Comma { Some((NpSmcHandler, Comma, Dir::Right)) } else { cur };
    let h = NpSmcHandler;
    let cur = if qs == h && qy == X { Some((h, Zero, Dir::Right)) } else { cur };
    let cur = if qs == h && qy == Y { Some((h, One, Dir::Right)) } else { cur };
    let cur = if qs == h && listed(seq![Zero, One, Comma], qy) { Some((h, qy, Dir::Right)) } else { cur };
    let cur = if qs == h && qy == Pipe { Some((NpReadDir, Pipe, Dir::Right)) } else { cur };
    let cur = if qs == NpReadDir && qy == L { Some((MoveLeft, L, Dir::Left)) } else { cur };
    let cur = if qs == NpReadDir && qy == R { Some((MoveRight, R, Dir::Left)) } else { cur };
    let rs = SmcRestSym;
    let cur = if qs == rs && qy == X { Some((rs, Zero, Dir::Right)) } else { cur };
    let cur = if qs == rs && qy == Y { Some((rs, One, Dir::Right)) } else { cur };
    let cur = if qs == rs && listed(seq![Zero, One], qy) { Some((rs, qy, Dir::Right)) } else { cur };
    let cur = if qs == rs && qy == Pipe { Some((ApplyReadNst, Pipe, Dir::Right)) } else { cur };
    cur
}

/// The rule that `copy_state_bit` gives a state and a symbol, or `rest` where
/// it gives none.
pub open spec fn copy_state_bit_delta(carry: State, w: State, mark: Symbol, qs: State, qy: Symbol, rest: Option<(State, Symbol, Dir)>) -> Option<(State, Symbol, Dir)> {
    let cur = rest;
    let cur = if qs == carry && listed(seq![Zero, One, X, Y, Pipe, L, R, Semi, Dot, Star, Comma, Gt], qy) { Some((carry, qy, Dir::Right)) } else { cur };
    let cur = if qs == carry && qy == Symbol::Hash { Some((w, Symbol::Hash, Dir::Right)) } else { cur };
    let cur = if qs == w && listed(seq![X, Y], qy) { Some((w, qy, Dir::Right)) } else { cur };
    let cur = if qs == w && qy == Zero { Some((CpNstRet, mark, Dir::Left)) } else { cur };
    let cur = if qs == w && qy == One { Some((CpNstRet, mark, Dir::Left)) } else { cur };
    cur
}

/// The rule that `copy_state_rules` gives a state and a symbol, or `rest` where
/// it gives none.
pub open spec fn copy_state_rules_delta(qs: State, qy: Symbol, rest: Option<(State, Symbol, Dir)>) -> Option<(State, Symbol, Dir)> {
    let cur = rest;
    let cur = if qs == ApplyReadNst && qy == Zero { Some((CpNstC0, X, Dir::Right)) } else { cur };
    let cur = if qs == ApplyReadNst && qy == One { Some((CpNstC1, Y, Dir::Right)) } else { cur };
    let cur = if qs == ApplyReadNst && qy == Pipe { Some((CpNstDone, Pipe, Dir::Left)) } else { cur };
    let cur = copy_state_bit_delta(CpNstC0, CpNstC0W, X, qs, qy, cur);
    let cur = copy_state_bit_delta(CpNstC1, CpNstC1W, Y, qs, qy, cur);
    cur
}

/// The rule that `copy_state_next_rules` gives a state and a symbol, or `rest` where
/// it gives none.
pub open spec fn copy_state_next_rules_delta(qs: State, qy: Symbol, rest: Option<(State, Symbol, Dir)>) -> Option<(State, Symbol, Dir)> {
    let cur = rest;
    let cur = seek_star_delta(CpNstRet, CpNstNext, qs, qy, cur);
    let n = CpNstNext;
    let cur = if qs == n && listed(seq![Zero, One], qy) { Some((n, qy, Dir::Right)) } else { cur };
    let cur = if qs == n && qy == Pipe { Some((CpNstNext2, Pipe, Dir::Right)) } else { cur };
    let n2 = CpNstNext2;
    let cur = if qs == n2 && listed(seq![Zero, One], qy) { Some((n2, qy, Dir::Right)) } else { cur };
    let cur = if qs == n2 && qy == Pipe { Some((CpNstNext3, Pipe, Dir::Right)) } else { cur };
    let n3 = CpNstNext3;
    let cur = if qs == n3 && listed(seq![X, Y], qy) { Some((n3, qy, Dir::Right)) } else { cur };
    let cur = if qs == n3 && qy == Zero { Some((CpNstC0, X, Dir::Right)) } else { cur };
    let cur = if qs == n3 && qy == One { Some((CpNstC1, Y, Dir::Right)) } else { cur };
    let cur = if qs == n3 && qy == Pipe { Some((CpNstDone, Pipe, Dir::Left)) } else { cur };
    cur
}

/// The rule that `copy_state_done_rules` gives a state and a symbol, or `rest` where
/// it gives none.
pub open spec fn copy_state_done_rules_delta(qs: State, qy: Symbol, rest: Option<(State, Symbol, Dir)>) -> Option<(State, Symbol, Dir)> {
    let cur = rest;
    let d = CpNstDone;
    let cur = if qs == d && qy == X { Some((d, Zero, Dir::Left)) } else { cur };
    let cur = if qs == d && qy == Y { Some((d, One, Dir::Left)) } else { cur };
    let cur = if qs == d && qy == Pipe { Some((CpNstRestNav, Pipe, Dir::Right)) } else { cur };
    let nav = CpNstRestNav;
    let syms = (seq![Zero, One, X, Y, Pipe, L, R, Comma] + seq![Semi, Dot, Gt]);
    let cur = if qs == nav && listed(syms, qy) { Some((nav, qy, Dir::Right)) } else { cur };
    let cur = if qs == nav && qy == Symbol::Hash { Some((CpNstRestDo, Symbol::Hash, Dir::Right)) } else { cur };
    let rd = CpNstRestDo;
    let cur = if qs == rd && qy == X { Some((rd, Zero, Dir::Right)) } else { cur };
    let cur = if qs == rd && qy == Y { Some((rd, One, Dir::Right)) } else { cur };
    let cur = if qs == rd && listed(seq![Zero, One], qy) { Some((rd, qy, Dir::Right)) } else { cur };
    let cur = if qs == rd && qy == Symbol::Hash { Some((CpNsymSeek, Symbol::Hash, Dir::Left)) } else { cur };
    let cur = seek_star_delta(CpNsymSeek, CpNsymNav, qs, qy, cur);
    cur
}

/// The rule that `copy_symbol_nav_rules` gives a state and a symbol, or `rest` where
/// it gives none.
pub open spec fn copy_symbol_nav_rules_delta(qs: State, qy: Symbol, rest: Option<(State, Symbol, Dir)>) -> Option<(State, Symbol, Dir)> {
    let cur = rest;
    let n = CpNsymNav;
    let cur = if qs == n && listed(seq![Zero, One], qy) { Some((n, qy, Dir::Right)) } else { cur };
    let cur = if qs == n && qy == Pipe { Some((CpNsymNav2, Pipe, Dir::Right)) } else { cur };
    let n2 = CpNsymNav2;
    let cur = if qs == n2 && listed(seq![Zero, One], qy) { Some((n2, qy, Dir::Right)) } else { cur };
    let cur = if qs == n2 && qy == Pipe { Some((CpNsymNav3, Pipe, Dir::Right)) } else { cur };
    let n3 = CpNsymNav3;
    let cur = if qs == n3 && listed(seq![Zero, One], qy) { Some((n3, qy, Dir::Right)) } else { cur };
    let cur = if qs == n3 && qy == Pipe { Some((CpNsymRead, Pipe, Dir::Right)) } else { cur };
    let cur = if qs == CpNsymRead && qy == Zero { Some((CpNsymC0, X, Dir::Right)) } else { cur };
    let cur = if qs == CpNsymRead && qy == One { Some((CpNsymC1, Y, Dir::Right)) } else { cur };
    let cur = if qs == CpNsymRead && qy == Pipe { Some((CpNsymDone, Pipe, Dir::Left)) } else { cur };
    cur
}

/// The rule that `copy_symbol_bit` gives a state and a symbol, or `rest` where
/// it gives none.
pub open spec fn copy_symbol_bit_delta(carry: State, s1: State, fh: State, fb: State, mark: Symbol, qs: State, qy: Symbol, rest: Option<(State, Symbol, Dir)>) -> Option<(State, Symbol, Dir)> {
    let cur = rest;
    let cur = if qs == carry && listed(seq![Zero, One, X, Y, Pipe, L, R, Semi, Dot, Star, Comma, Gt], qy) { Some((carry, qy, Dir::Right)) } else { cur };
    let cur = if qs == carry && qy == Symbol::Hash { Some((s1, Symbol::Hash, Dir::Right)) } else { cur };
    let cur = if qs == s1 && listed(seq![Zero, One, X, Y], qy) { Some((s1, qy, Dir::Right)) } else { cur };
    let cur = if qs == s1 && qy == Symbol::Hash { Some((fh, Symbol::Hash, Dir::Right)) } else { cur };
    let syms = (seq![Zero, One, X, Y] + seq![Comma]);
    let cur = if qs == fh && listed(syms, qy) { Some((fh, qy, Dir::Right)) } else { cur };
    let cur = if qs == fh && qy == Caret { Some((fb, Caret, Dir::Right)) } else { cur };
    let cur = if qs == fb && listed(seq![X, Y], qy) { Some((fb, qy, Dir::Right)) } else { cur };
    let cur = if qs == fb && qy == Zero { Some((CpNsymRet, mark, Dir::Left)) } else { cur };
    let cur = if qs == fb && qy == One { Some((CpNsymRet, mark, Dir::Left)) } else { cur };
    cur
}

/// The rule that `copy_symbol_rules` gives a state and a symbol, or `rest` where
/// it gives none.
pub open spec fn copy_symbol_rules_delta(qs: State, qy: Symbol, rest: Option<(State, Symbol, Dir)>) -> Option<(State, Symbol, Dir)> {
    let cur = rest;
    let cur = copy_symbol_bit_delta(CpNsymC0, CpNsymC0S1, CpNsymC0Fh, CpNsymC0Fb, X, qs, qy, cur);
    let cur = copy_symbol_bit_delta(CpNsymC1, CpNsymC1S1, CpNsymC1Fh, CpNsymC1Fb, Y, qs, qy, cur);
    cur
}

/// The rule that `copy_symbol_next_rules` gives a state and a symbol, or `rest` where
/// it gives none.
pub open spec fn copy_symbol_next_rules_delta(qs: State, qy: Symbol, rest: Option<(State, Symbol, Dir)>) -> Option<(State, Symbol, Dir)> {
    let cur = rest;
    let cur = seek_star_delta(CpNsymRet, CpNsymFnext, qs, qy, cur);
    let fn_ = CpNsymFnext;
    let cur = if qs == fn_ && listed(seq![Zero, One], qy) { Some((fn_, qy, Dir::Right)) } else { cur };
    let cur = if qs == fn_ && qy == Pipe { Some((CpNsymFn2, Pipe, Dir::Right)) } else { cur };
    let fn2 = CpNsymFn2;
    let cur = if qs == fn2 && listed(seq![Zero, One], qy) { Some((fn2, qy, Dir::Right)) } else { cur };
    let cur = if qs == fn2 && qy == Pipe { Some((CpNsymFn3, Pipe, Dir::Right)) } else { cur };
    let fn3 = CpNsymFn3;
    let cur = if qs == fn3 && listed(seq![Zero, One], qy) { Some((fn3, qy, Dir::Right)) } else { cur };
    let cur = if qs == fn3 && qy == Pipe { Some((CpNsymFn4, Pipe, Dir::Right)) } else { cur };
    let fn4 = CpNsymFn4;
    let cur = if qs == fn4 && listed(seq![X, Y], qy) { Some((fn4, qy, Dir::Right)) } else { cur };
    let cur = if qs == fn4 && qy == Zero { Some((CpNsymC0, X, Dir::Right)) } else { cur };
    let cur = if qs == fn4 && qy == One { Some((CpNsymC1, Y, Dir::Right)) } else { cur };
    let cur = if qs == fn4 && qy == Pipe { Some((CpNsymDone, Pipe, Dir::Left)) } else { cur };
    cur
}

/// The rule that `copy_symbol_done_rules` gives a state and a symbol, or `rest` where
/// it gives none.
pub open spec fn copy_symbol_done_rules_delta(qs: State, qy: Symbol, rest: Option<(State, Symbol, Dir)>) -> Option<(State, Symbol, Dir)> {
    let cur = rest;
    let d = CpNsymDone;
    let cur = if qs == d && qy == X { Some((d, Zero, Dir::Left)) } else { cur };
    let cur = if qs == d && qy == Y { Some((d, One, Dir::Left)) } else { cur };
    let cur = if qs == d && qy == Pipe { Some((CpNsymRestNav, Pipe, Dir::Right)) } else { cur };
    let nav = CpNsymRestNav;
    let syms = (seq![Zero, One, X, Y, Pipe, L, R, Comma] + seq![Semi, Dot, Gt]);
    let cur = if qs == nav && listed(syms, qy) { Some((nav, qy, Dir::Right)) } else { cur };
    let cur = if qs == nav && qy == Symbol::Hash { Some((CpNsymRnS1, Symbol::Hash, Dir::Right)) } else { cur };
    let s1 = CpNsymRnS1;
    let cur = if qs == s1 && listed(seq![Zero, One], qy) { Some((s1, qy, Dir::Right)) } else { cur };
    let cur = if qs == s1 && qy == Symbol::Hash { Some((CpNsymRnFh, Symbol::Hash, Dir::Right)) } else { cur };
    let fh = CpNsymRnFh;
    let syms = (seq![Zero, One] + seq![Comma]);
    let cur = if qs == fh && listed(syms, qy) { Some((fh, qy, Dir::Right)) } else { cur };
    let cur = if qs == fh && qy == Caret { Some((CpNsymRnDo, Caret, Dir::Right)) } else { cur };
    let rd = CpNsymRnDo;
    let cur = if qs == rd && qy == X { Some((rd, Zero, Dir::Right)) } else { cur };
    let cur = if qs == rd && qy == Y { Some((rd, One, Dir::Right)) } else { cur };
    let cur = if qs == rd && listed(seq![Zero, One], qy) { Some((rd, qy, Dir::Right)) } else { cur };
    let cur = if qs == rd && qy == Comma { Some((ReadDir, Comma, Dir::Left)) } else { cur };
    let cur = if qs == rd && qy == Blank { Some((ReadDir, Blank, Dir::Left)) } else { cur };
    cur
}

/// The rule that `read_direction_rules` gives a state and a symbol, or `rest` where
/// it gives none.
pub open spec fn read_direction_rules_delta(qs: State, qy: Symbol, rest: Option<(State, Symbol, Dir)>) -> Option<(State, Symbol, Dir)> {
    let cur = rest;
    let cur = seek_star_delta(ReadDir, RdSkipToDir, qs, qy, cur);
    let sk = RdSkipToDir;
    let cur = if qs == sk && listed(seq![Zero, One], qy) { Some((sk, qy, Dir::Right)) } else { cur };
    let cur = if qs == sk && qy == Pipe { Some((RdSk2, Pipe, Dir::Right)) } else { cur };
    let sk2 = RdSk2;
    let cur = if qs == sk2 && listed(seq![Zero, One], qy) { Some((sk2, qy, Dir::Right)) } else { cur };
    let cur = if qs == sk2 && qy == Pipe { Some((RdSk3, Pipe, Dir::Right)) } else { cur };
    let sk3 = RdSk3;
    let cur = if qs == sk3 && listed(seq![Zero, One], qy) { Some((sk3, qy, Dir::Right)) } else { cur };
    let cur = if qs == sk3 && qy == Pipe { Some((RdSk4, Pipe, Dir::Right)) } else { cur };
    let sk4 = RdSk4;
    let cur = if qs == sk4 && listed(seq![Zero, One], qy) { Some((sk4, qy, Dir::Right)) } else { cur };
    let cur = if qs == sk4 && qy == Pipe { Some((RdRead, Pipe, Dir::Right)) } else { cur };
    let cur = if qs == RdRead && qy == L { Some((MoveLeft, L, Dir::Left)) } else { cur };
    let cur = if qs == RdRead && qy == R { Some((MoveRight, R, Dir::Left)) } else { cur };
    cur
}

/// The rule that `move_right_rules` gives a state and a symbol, or `rest` where
/// it gives none.
pub open spec fn move_right_rules_delta(qs: State, qy: Symbol, rest: Option<(State, Symbol, Dir)>) -> Option<(State, Symbol, Dir)> {
    let cur = rest;
    let mr = MoveRight;
    let syms = (seq![Zero, One] + seq![Pipe, L, R, Comma]);
    let cur = if qs == mr && listed(syms, qy) { Some((mr, qy, Dir::Left)) } else { cur };
    let cur = if qs == mr && qy == Star { Some((MrNav, Dot, Dir::Right)) } else { cur };
    let nav = MrNav;
    let syms = (seq![Zero, One, X, Y, Pipe, L, R, Comma] + seq![Semi, Dot, Gt]);
    let cur = if qs == nav && listed(syms, qy) { Some((nav, qy, Dir::Right)) } else { cur };
    let cur = if qs == nav && qy == Symbol::Hash { Some((MrS1, Symbol::Hash, Dir::Right)) } else { cur };
    let s1 = MrS1;
    let cur = if qs == s1 && listed(seq![Zero, One], qy) { Some((s1, qy, Dir::Right)) } else { cur };
    let cur = if qs == s1 && qy == Symbol::Hash { Some((MrFindHead, Symbol::Hash, Dir::Right)) } else { cur };
    let fh = MrFindHead;
    let syms = (seq![Zero, One] + seq![Comma]);
    let cur = if qs == fh && listed(syms, qy) { Some((fh, qy, Dir::Right)) } else { cur };
    let cur = if qs == fh && qy == Caret { Some((MrSkipCell, Gt, Dir::Right)) } else { cur };
    let sc = MrSkipCell;
    let cur = if qs == sc && listed(seq![Zero, One], qy) { Some((sc, qy, Dir::Right)) } else { cur };
    let cur = if qs == sc && qy == Comma { Some((MrPlaceHead, Caret, Dir::Left)) } else { cur };
    let cur = if qs == sc && qy == Blank { Some((MrExtendInit, Blank, Dir::Left)) } else { cur };
    let ph = MrPlaceHead;
    let cur = if qs == ph && listed(seq![Zero, One], qy) { Some((ph, qy, Dir::Left)) } else { cur };
    let cur = if qs == ph && qy == Gt { Some((DoneSeekHome, Comma, Dir::Left)) } else { cur };
    cur
}

/// The rule that `extend_tape_rules` gives a state and a symbol, or `rest` where
/// it gives none.
pub open spec fn extend_tape_rules_delta(qs: State, qy: Symbol, rest: Option<(State, Symbol, Dir)>) -> Option<(State, Symbol, Dir)> {
    let cur = rest;
    let ei = MrExtendInit;
    let cur = if qs == ei && listed(seq![Zero, One], qy) { Some((ei, qy, Dir::Left)) } else { cur };
    let cur = if qs == ei && qy == Gt { Some((MrExtToBlank, Comma, Dir::Right)) } else { cur };
    let tb = MrExtToBlank;
    let cur = if qs == tb && listed(seq![Zero, One], qy) { Some((tb, qy, Dir::Right)) } else { cur };
    let cur = if qs == tb && qy == Blank { Some((MrExtWriteHead, Caret, Dir::Left)) } else { cur };
    let cur = seek_home_delta(MrExtWriteHead, MrExtHome, qs, qy, cur);
    let eh = MrExtHome;
    let cur = if qs == eh && listed(seq![Zero, One, Semi], qy) { Some((eh, qy, Dir::Right)) } else { cur };
    let cur = if qs == eh && qy == Symbol::Hash { Some((MrExtReadBlank, Symbol::Hash, Dir::Right)) } else { cur };
    let rb = MrExtReadBlank;
    let cur = if qs == rb && qy == Zero { Some((MrExtBc0, X, Dir::Right)) } else { cur };
    let cur = if qs == rb && qy == One { Some((MrExtBc1, Y, Dir::Right)) } else { cur };
    let cur = if qs == rb && qy == Symbol::Hash { Some((MrExtRestBlank, Symbol::Hash, Dir::Left)) } else { cur };
    cur
}

/// The rule that `carry_blank_bit` gives a state and a symbol, or `rest` where
/// it gives none.
pub open spec fn carry_blank_bit_delta(carry: State, c_sym: Symbol, all_between: Seq<Symbol>, qs: State, qy: Symbol, rest: Option<(State, Symbol, Dir)>) -> Option<(State, Symbol, Dir)> {
    let cur = rest;
    let cur = if qs == carry && listed(all_between, qy) { Some((carry, qy, Dir::Right)) } else { cur };
    let cur = if qs == carry && qy == Blank { Some((MrExtBcRet, c_sym, Dir::Left)) } else { cur };
    cur
}

/// The rule that `extend_tape_carry_rules` gives a state and a symbol, or `rest` where
/// it gives none.
pub open spec fn extend_tape_carry_rules_delta(qs: State, qy: Symbol, rest: Option<(State, Symbol, Dir)>) -> Option<(State, Symbol, Dir)> {
    let cur = rest;
    let all_between = seq![Zero, One, Symbol::Hash, Comma, Caret, Pipe, Semi, Dot, L, R, Star, Gt, ];
    let cur = carry_blank_bit_delta(MrExtBc0, Zero, all_between, qs, qy, cur);
    let cur = carry_blank_bit_delta(MrExtBc1, One, all_between, qs, qy, cur);
    let ret = MrExtBcRet;
    let cur = if qs == ret && listed(all_between, qy) { Some((ret, qy, Dir::Left)) } else { cur };
    let cur = if qs == ret && qy == X { Some((MrExtBcNext, X, Dir::Right)) } else { cur };
    let cur = if qs == ret && qy == Y { Some((MrExtBcNext, Y, Dir::Right)) } else { cur };
    cur
}

/// The rule that `extend_tape_done_rules` gives a state and a symbol, or `rest` where
/// it gives none.
pub open spec fn extend_tape_done_rules_delta(qs: State, qy: Symbol, rest: Option<(State, Symbol, Dir)>) -> Option<(State, Symbol, Dir)> {
    let cur = rest;
    let next = MrExtBcNext;
    let cur = if qs == next && listed(seq![X, Y], qy) { Some((next, qy, Dir::Right)) } else { cur };
    let cur = if qs == next && qy == Zero { Some((MrExtBc0, X, Dir::Right)) } else { cur };
    let cur = if qs == next && qy == One { Some((MrExtBc1, Y, Dir::Right)) } else { cur };
    let cur = if qs == next && qy == Symbol::Hash { Some((MrExtRestBlank, Symbol::Hash, Dir::Left)) } else { cur };
    let rb = MrExtRestBlank;
    let cur = if qs == rb && qy == X { Some((rb, Zero, Dir::Left)) } else { cur };
    let cur = if qs == rb && qy == Y { Some((rb, One, Dir::Left)) } else { cur };
    let cur = if qs == rb && listed(seq![Zero, One], qy) { Some((rb, qy, Dir::Left)) } else { cur };
    let cur = if qs == rb && qy == Symbol::Hash { Some((MrExtNavToHead, Symbol::Hash, Dir::Right)) } else { cur };
    let nth = MrExtNavToHead;
    let syms = (seq![Zero, One] + seq![Symbol::Hash, Comma, Pipe, Semi, Dot, L, R, Star, Gt]);
    let cur = if qs == nth && listed(syms, qy) { Some((nth, qy, Dir::Right)) } else { cur };
    let cur = if qs == nth && qy == Caret { Some((DoneSeekHome, Caret, Dir::Left)) } else { cur };
    cur
}

/// The rule that `move_left_rules` gives a state and a symbol, or `rest` where
/// it gives none.
pub open spec fn move_left_rules_delta(qs: State, qy: Symbol, rest: Option<(State, Symbol, Dir)>) -> Option<(State, Symbol, Dir)> {
    let cur = rest;
    let ml = MoveLeft;
    let syms = (seq![Zero, One] + seq![Pipe, L, R, Comma]);
    let cur = if qs == ml && listed(syms, qy) { Some((ml, qy, Dir::Left)) } else { cur };
    let cur = if qs == ml && qy == Star { Some((MlNav, Dot, Dir::Right)) } else { cur };
    let nav = MlNav;
    let syms = (seq![Zero, One, X, Y, Pipe, L, R, Comma] + seq![Semi, Dot, Gt]);
    let cur = if qs == nav && listed(syms, qy) { Some((nav, qy, Dir::Right)) } else { cur };
    let cur = if qs == nav && qy == Symbol::Hash { Some((MlS1, Symbol::Hash, Dir::Right)) } else { cur };
    let s1 = MlS1;
    let cur = if qs == s1 && listed(seq![Zero, One], qy) { Some((s1, qy, Dir::Right)) } else { cur };
    let cur = if qs == s1 && qy == Symbol::Hash { Some((MlFindHead, Symbol::Hash, Dir::Right)) } else { cur };
    let fh = MlFindHead;
    let syms = (seq![Zero, One] + seq![Comma]);
    let cur = if qs == fh && listed(syms, qy) { Some((fh, qy, Dir::Right)) } else { cur };
    let cur = if qs == fh && qy == Caret { Some((MlMark, Gt, Dir::Left)) } else { cur };
    let mk = MlMark;
    let cur = if qs == mk && listed(seq![Zero, One], qy) { Some((mk, qy, Dir::Left)) } else { cur };
    let cur = if qs == mk && qy == Comma { Some((MlRestore, Caret, Dir::Right)) } else { cur };
    let rs = MlRestore;
    let cur = if qs == rs && listed(seq![Zero, One], qy) { Some((rs, qy, Dir::Right)) } else { cur };
    let cur = if qs == rs && qy == Gt { Some((DoneSeekHome, Comma, Dir::Left)) } else { cur };
    cur
}

/// The rule that `restart_rules` gives a state and a symbol, or `rest` where
/// it gives none.
pub open spec fn restart_rules_delta(qs: State, qy: Symbol, rest: Option<(State, Symbol, Dir)>) -> Option<(State, Symbol, Dir)> {
    let cur = rest;
    let cur = seek_home_delta(DoneSeekHome, Init, qs, qy, cur);
    cur
}

/// The rule that `check_accept_bit` gives a state and a symbol, or `rest` where
/// it gives none.
pub open spec fn check_accept_bit_delta(carry: State, sk1: State, sk2: State, find: State, qs: State, qy: Symbol, rest: Option<(State, Symbol, Dir)>) -> Option<(State, Symbol, Dir)> {
    let cur = rest;
    let syms = (seq![Zero, One, X, Y] + seq![Semi]);
    let cur = if qs == carry && listed(syms, qy) { Some((carry, qy, Dir::Right)) } else { cur };
    let cur = if qs == carry && qy == Symbol::Hash { Some((sk1, Symbol::Hash, Dir::Right)) } else { cur };
    let cur = if qs == sk1 && listed(seq![Zero, One], qy) { Some((sk1, qy, Dir::Right)) } else { cur };
    let cur = if qs == sk1 && qy == Symbol::Hash { Some((sk2, Symbol::Hash, Dir::Right)) } else { cur };
    let cur = if qs == sk2 && listed(seq![Zero, One, X, Y, Pipe, L, R, Semi, Dot, Star, Comma, Gt], qy) { Some((sk2, qy, Dir::Right)) } else { cur };
    let cur = if qs == sk2 && qy == Symbol::Hash { Some((find, Symbol::Hash, Dir::Right)) } else { cur };
    let cur = if qs == find && listed(seq![X, Y], qy) { Some((find, qy, Dir::Right)) } else { cur };
    let cur = if carry == ChkAccC0 {
        let cur = if qs == find && qy == Zero { Some((ChkAccOk, X, Dir::Left)) } else { cur };
        let cur = if qs == find && qy == One { Some((ChkAccFailBit, Y, Dir::Left)) } else { cur };
        cur
    } else {
        let cur = if qs == find && qy == One { Some((ChkAccOk, Y, Dir::Left)) } else { cur };
        let cur = if qs == find && qy == Zero { Some((ChkAccFailBit, X, Dir::Left)) } else { cur };
        cur
    };
    cur
}

/// The rule that `check_accept_rules` gives a state and a symbol, or `rest` where
/// it gives none.
pub open spec fn check_accept_rules_delta(qs: State, qy: Symbol, rest: Option<(State, Symbol, Dir)>) -> Option<(State, Symbol, Dir)> {
    let cur = rest;
    let ci = ChkAccInit;
    let cur = if qs == ci && qy == Symbol::Hash { Some((RejFinalHome, Symbol::Hash, Dir::Left)) } else { cur };
    let cur = if qs == ci && qy == Zero { Some((ChkAccC0, X, Dir::Right)) } else { cur };
    let cur = if qs == ci && qy == One { Some((ChkAccC1, Y, Dir::Right)) } else { cur };
    let cur = check_accept_bit_delta(ChkAccC0, ChkAccC0Sk1, ChkAccC0Sk2, ChkAccC0Find, qs, qy, cur);
    let cur = check_accept_bit_delta(ChkAccC1, ChkAccC1Sk1, ChkAccC1Sk2, ChkAccC1Find, qs, qy, cur);
    cur
}

/// The rule that `accept_bit_matched_rules` gives a state and a symbol, or `rest` where
/// it gives none.
pub open spec fn accept_bit_matched_rules_delta(qs: State, qy: Symbol, rest: Option<(State, Symbol, Dir)>) -> Option<(State, Symbol, Dir)> {
    let cur = rest;
    let ok = ChkAccOk;
    let cur = if qs == ok && listed(seq![Zero, One, X, Y], qy) { Some((ok, qy, Dir::Left)) } else { cur };
    let cur = if qs == ok && qy == Symbol::Hash { Some((ChkAccOkSk1, Symbol::Hash, Dir::Left)) } else { cur };
    let sk1 = ChkAccOkSk1;
    let cur = if qs == sk1 && listed(seq![Zero, One, X, Y, Pipe, L, R, Semi, Dot, Star, Comma, Gt], qy) { Some((sk1, qy, Dir::Left)) } else { cur };
    let cur = if qs == sk1 && qy == Symbol::Hash { Some((ChkAccOkSk2, Symbol::Hash, Dir::Left)) } else { cur };
    let sk2 = ChkAccOkSk2;
    let cur = if qs == sk2 && listed(seq![Zero, One], qy) { Some((sk2, qy, Dir::Left)) } else { cur };
    let cur = if qs == sk2 && qy == Symbol::Hash { Some((ChkAccOkAcc, Symbol::Hash, Dir::Left)) } else { cur };
    let oa = ChkAccOkAcc;
    let syms = (seq![Zero, One, X, Y] + seq![Semi]);
    let cur = if qs == oa && listed(syms, qy) { Some((oa, qy, Dir::Left)) } else { cur };
    let cur = if qs == oa && qy == Dollar { Some((ChkAccOkFind, Dollar, Dir::Right)) } else { cur };
    let of_ = ChkAccOkFind;
    let syms = (seq![Zero, One] + seq![Semi]);
    let cur = if qs == of_ && listed(syms, qy) { Some((of_, qy, Dir::Right)) } else { cur };
    let cur = if qs == of_ && qy == X { Some((ChkAccOkSkip, X, Dir::Right)) } else { cur };
    let cur = if qs == of_ && qy == Y { Some((ChkAccOkSkip, Y, Dir::Right)) } else { cur };
    let cur = if qs == of_ && qy == Symbol::Hash { Some((AcceptSeekHome, Symbol::Hash, Dir::Left)) } else { cur };
    let skip = ChkAccOkSkip;
    let cur = if qs == skip && listed(seq![X, Y], qy) { Some((skip, qy, Dir::Right)) } else { cur };
    let cur = if qs == skip && qy == Zero { Some((ChkAccC0, X, Dir::Right)) } else { cur };
    let cur = if qs == skip && qy == One { Some((ChkAccC1, Y, Dir::Right)) } else { cur };
    let cur = if qs == skip && qy == Semi { Some((AcceptSeekHome, Semi, Dir::Left)) } else { cur };
    let cur = if qs == skip && qy == Symbol::Hash { Some((AcceptSeekHome, Symbol::Hash, Dir::Left)) } else { cur };
    cur
}

/// The rule that `accept_bit_mismatch_rules` gives a state and a symbol, or `rest` where
/// it gives none.
pub open spec fn accept_bit_mismatch_rules_delta(qs: State, qy: Symbol, rest: Option<(State, Symbol, Dir)>) -> Option<(State, Symbol, Dir)> {
    let cur = rest;
    let fb = ChkAccFailBit;
    let cur = if qs == fb && listed(seq![Zero, One, X, Y], qy) { Some((fb, qy, Dir::Left)) } else { cur };
    let cur = if qs == fb && qy == Symbol::Hash { Some((ChkAccRestState, Symbol::Hash, Dir::Right)) } else { cur };
    let rs = ChkAccRestState;
    let cur = if qs == rs && qy == X { Some((rs, Zero, Dir::Right)) } else { cur };
    let cur = if qs == rs && qy == Y { Some((rs, One, Dir::Right)) } else { cur };
    let cur = if qs == rs && listed(seq![Zero, One], qy) { Some((rs, qy, Dir::Right)) } else { cur };
    let cur = if qs == rs && qy == Symbol::Hash { Some((ChkAccBack2acc, Symbol::Hash, Dir::Left)) } else { cur };
    let ba = ChkAccBack2acc;
    let cur = if qs == ba && listed(seq![Zero, One], qy) { Some((ba, qy, Dir::Left)) } else { cur };
    let cur = if qs == ba && qy == Symbol::Hash { Some((ChkAccIntoAcc, Symbol::Hash, Dir::Left)) } else { cur };
    let ia = ChkAccIntoAcc;
    let syms = (seq![Zero, One, X, Y] + seq![Semi, Symbol::Hash, Pipe, Dot, L, R, Comma, Star, Gt]);
    let cur = if qs == ia && listed(syms, qy) { Some((ia, qy, Dir::Left)) } else { cur };
    let cur = if qs == ia && qy == Dollar { Some((ChkAccDoRest, Dollar, Dir::Right)) } else { cur };
    cur
}

/// The rule that `accept_next_entry_rules` gives a state and a symbol, or `rest` where
/// it gives none.
pub open spec fn accept_next_entry_rules_delta(qs: State, qy: Symbol, rest: Option<(State, Symbol, Dir)>) -> Option<(State, Symbol, Dir)> {
    let cur = rest;
    let dr = ChkAccDoRest;
    let cur = if qs == dr && listed(seq![Zero, One], qy) { Some((dr, qy, Dir::Right)) } else { cur };
    let cur = if qs == dr && qy == X { Some((ChkAccDoRest2, Zero, Dir::Right)) } else { cur };
    let cur = if qs == dr && qy == Y { Some((ChkAccDoRest2, One, Dir::Right)) } else { cur };
    let cur = if qs == dr && qy == Semi { Some((ChkAccNextEntry, Semi, Dir::Right)) } else { cur };
    let cur = if qs == dr && qy == Symbol::Hash { Some((RejectSeekHome, Symbol::Hash, Dir::Left)) } else { cur };
    let dr2 = ChkAccDoRest2;
    let cur = if qs == dr2 && qy == X { Some((dr2, Zero, Dir::Right)) } else { cur };
    let cur = if qs == dr2 && qy == Y { Some((dr2, One, Dir::Right)) } else { cur };
    let cur = if qs == dr2 && listed(seq![Zero, One], qy) { Some((dr2, qy, Dir::Right)) } else { cur };
    let cur = if qs == dr2 && qy == Semi { Some((ChkAccNextEntry, Semi, Dir::Right)) } else { cur };
    let cur = if qs == dr2 && qy == Symbol::Hash { Some((RejectSeekHome, Symbol::Hash, Dir::Left)) } else { cur };
    let ne = ChkAccNextEntry;
    let cur = if qs == ne && qy == Zero { Some((ChkAccC0, X, Dir::Right)) } else { cur };
    let cur = if qs == ne && qy == One { Some((ChkAccC1, Y, Dir::Right)) } else { cur };
    let cur = if qs == ne && qy == Symbol::Hash { Some((RejectSeekHome, Symbol::Hash, Dir::Left)) } else { cur };
    cur
}

/// The rule that `accept_rules` gives a state and a symbol, or `rest` where
/// it gives none.
pub open spec fn accept_rules_delta(qs: State, qy: Symbol, rest: Option<(State, Symbol, Dir)>) -> Option<(State, Symbol, Dir)> {
    let cur = rest;
    let ash = AcceptSeekHome;
    let syms = (seq![Zero, One, X, Y] + seq![Semi]);
    let cur = if qs == ash && listed(syms, qy) { Some((ash, qy, Dir::Left)) } else { cur };
    let cur = if qs == ash && qy == Dollar { Some((AccRestAcc, Dollar, Dir::Right)) } else { cur };
    let ra = AccRestAcc;
    let cur = if qs == ra && qy == X { Some((ra, Zero, Dir::Right)) } else { cur };
    let cur = if qs == ra && qy == Y { Some((ra, One, Dir::Right)) } else { cur };
    let syms = (seq![Zero, One] + seq![Semi]);
    let cur = if qs == ra && listed(syms, qy) { Some((ra, qy, Dir::Right)) } else { cur };
    let cur = if qs == ra && qy == Symbol::Hash { Some((AccRestSkip1, Symbol::Hash, Dir::Right)) } else { cur };
    let sk1 = AccRestSkip1;
    let cur = if qs == sk1 && listed(seq![Zero, One], qy) { Some((sk1, qy, Dir::Right)) } else { cur };
    let cur = if qs == sk1 && qy == Symbol::Hash { Some((AccRestSkip2, Symbol::Hash, Dir::Right)) } else { cur };
    let sk2 = AccRestSkip2;
    let cur = if qs == sk2 && listed(seq![Zero, One, X, Y, Pipe, L, R, Semi, Dot, Star, Comma, Gt], qy) { Some((sk2, qy, Dir::Right)) } else { cur };
    let cur = if qs == sk2 && qy == Symbol::Hash { Some((AccRestState, Symbol::Hash, Dir::Right)) } else { cur };
    let rs = AccRestState;
    let cur = if qs == rs && qy == X { Some((rs, Zero, Dir::Right)) } else { cur };
    let cur = if qs == rs && qy == Y { Some((rs, One, Dir::Right)) } else { cur };
    let cur = if qs == rs && listed(seq![Zero, One], qy) { Some((rs, qy, Dir::Right)) } else { cur };
    let cur = if qs == rs && qy == Symbol::Hash { Some((AccFinalHome, Symbol::Hash, Dir::Left)) } else { cur };
    let cur = seek_home_delta(AccFinalHome, Accept, qs, qy, cur);
    cur
}

/// The rule that `reject_rules` gives a state and a symbol, or `rest` where
/// it gives none.
pub open spec fn reject_rules_delta(qs: State, qy: Symbol, rest: Option<(State, Symbol, Dir)>) -> Option<(State, Symbol, Dir)> {
    let cur = rest;
    let rsh = RejectSeekHome;
    let syms = (seq![Zero, One, X, Y] + seq![Semi]);
    let cur = if qs == rsh && listed(syms, qy) { Some((rsh, qy, Dir::Left)) } else { cur };
    let cur = if qs == rsh && qy == Dollar { Some((RejRestAcc, Dollar, Dir::Right)) } else { cur };
    let ra = RejRestAcc;
    let cur = if qs == ra && qy == X { Some((ra, Zero, Dir::Right)) } else { cur };
    let cur = if qs == ra && qy == Y { Some((ra, One, Dir::Right)) } else { cur };
    let syms = (seq![Zero, One] + seq![Semi]);
    let cur = if qs == ra && listed(syms, qy) { Some((ra, qy, Dir::Right)) } else { cur };
    let cur = if qs == ra && qy == Symbol::Hash { Some((RejRestSkip1, Symbol::Hash, Dir::Right)) } else { cur };
    let sk1 = RejRestSkip1;
    let cur = if qs == sk1 && listed(seq![Zero, One], qy) { Some((sk1, qy, Dir::Right)) } else { cur };
    let cur = if qs == sk1 && qy == Symbol::Hash { Some((RejRestSkip2, Symbol::Hash, Dir::Right)) } else { cur };
    let sk2 = RejRestSkip2;
    let cur = if qs == sk2 && listed(seq![Zero, One, X, Y, Pipe, L, R, Semi, Dot, Star, Comma, Gt], qy) { Some((sk2, qy, Dir::Right)) } else { cur };
    let cur = if qs == sk2 && qy == Symbol::Hash { Some((RejRestState, Symbol::Hash, Dir::Right)) } else { cur };
    let rs = RejRestState;
    let cur = if qs == rs && qy == X { Some((rs, Zero, Dir::Right)) } else { cur };
    let cur = if qs == rs && qy == Y { Some((rs, One, Dir::Right)) } else { cur };
    let cur = if qs == rs && listed(seq![Zero, One], qy) { Some((rs, qy, Dir::Right)) } else { cur };
    let cur = if qs == rs && qy == Symbol::Hash { Some((RejFinalHome, Symbol::Hash, Dir::Left)) } else { cur };
    let cur = seek_home_delta(RejFinalHome, Reject, qs, qy, cur);
    cur
}

/// Looking up a rule after `init_rules` adds its rules.
pub proof fn lemma_init_rules_lookup(acc: Seq<Rule<State, Symbol>>, qs: State, qy: Symbol)
    ensures
        lookup_rules(init_rules_from(acc), qs, qy) == init_rules_delta(qs, qy, lookup_rules(acc, qs, qy)),
{
    let acc0 = acc;
    let prev = acc;
    let acc = acc.push((Init, Dollar, Init, Dollar, Dir::Right));
    lemma_lookup_push(prev, (Init, Dollar, Init, Dollar, Dir::Right), qs, qy);
    let prev = acc;
    let acc = acc + scan_rules(Init, seq![Zero, One, Semi], Dir::Right);
    lemma_lookup_scan(prev, Init, seq![Zero, One, Semi], Dir::Right, qs, qy);
    let prev = acc;
    let acc = acc.push((Init, Symbol::Hash, InitSkip, Symbol::Hash, Dir::Right));
    lemma_lookup_push(prev, (Init, Symbol::Hash, InitSkip, Symbol::Hash, Dir::Right), qs, qy);
    let prev = acc;
    let acc = acc + scan_rules(InitSkip, seq![Zero, One], Dir::Right);
    lemma_lookup_scan(prev, InitSkip, seq![Zero, One], Dir::Right, qs, qy);
    let prev = acc;
    let acc = acc.push((InitSkip, Symbol::Hash, InitSeekEnd, Symbol::Hash, Dir::Right));
    lemma_lookup_push(prev, (InitSkip, Symbol::Hash, InitSeekEnd, Symbol::Hash, Dir::Right), qs, qy);
    let s = InitSeekEnd;
    let syms = (seq![Zero, One, X, Y, Pipe, L, R, Comma] + seq![Semi, Dot, Gt]);
    let prev = acc;
    let acc = acc + scan_rules(s, syms, Dir::Right);
    lemma_lookup_scan(prev, s, syms, Dir::Right, qs, qy);
    let prev = acc;
    let acc = acc.push((s, Symbol::Hash, MarkRule, Symbol::Hash, Dir::Left));
    lemma_lookup_push(prev, (s, Symbol::Hash, MarkRule, Symbol::Hash, Dir::Left), qs, qy);
    assert(init_rules_from(acc0) == acc);
}

/// Looking up a rule after `mark_rule_rules` adds its rules.
pub proof fn lemma_mark_rule_rules_lookup(acc: Seq<Rule<State, Symbol>>, qs: State, qy: Symbol)
    ensures
        lookup_rules(mark_rule_rules_from(acc), qs, qy) == mark_rule_rules_delta(qs, qy, lookup_rules(acc, qs, qy)),
{
    let acc0 = acc;
    let mr = MarkRule;
    let prev = acc;
    let acc = acc + scan_rules(mr, seq![Zero, One, X, Y, Pipe, L, R, Comma], Dir::Left);
    lemma_lookup_scan(prev, mr, seq![Zero, One, X, Y, Pipe, L, R, Comma], Dir::Left, qs, qy);
    let prev = acc;
    let acc = acc.push((mr, Semi, mr, Semi, Dir::Left));
    lemma_lookup_push(prev, (mr, Semi, mr, Semi, Dir::Left), qs, qy);
    let prev = acc;
    let acc = acc.push((mr, Dot, CmpStRead, Star, Dir::Right));
    lemma_lookup_push(prev, (mr, Dot, CmpStRead, Star, Dir::Right), qs, qy);
    let prev = acc;
    let acc = acc.push((mr, Symbol::Hash, MarkRuleNoMatch, Symbol::Hash, Dir::Left));
    lemma_lookup_push(prev, (mr, Symbol::Hash, MarkRuleNoMatch, Symbol::Hash, Dir::Left), qs, qy);
    let prev = acc;
    let acc = acc + seek_home_rules(MarkRuleNoMatch, ChkAccInit);
    lemma_lookup_seek_home(prev, MarkRuleNoMatch, ChkAccInit, qs, qy);
    assert(mark_rule_rules_from(acc0) == acc);
}

/// Looking up a rule after `compare_state_bit` adds its rules.
pub proof fn lemma_compare_state_bit_lookup(acc: Seq<Rule<State, Symbol>>, c_sym: Symbol, carry: State, find: State, qs: State, qy: Symbol)
    ensures
        lookup_rules(compare_state_bit_from(acc, c_sym, carry, find), qs, qy) == compare_state_bit_delta(c_sym, carry, find, qs, qy, lookup_rules(acc, qs, qy)),
{
    let acc0 = acc;
    let prev = acc;
    let acc = acc + scan_rules(carry, seq![Zero, One, X, Y, Pipe, L, R, Semi, Dot, Star, Comma, Gt], Dir::Right);
    lemma_lookup_scan(prev, carry, seq![Zero, One, X, Y, Pipe, L, R, Semi, Dot, Star, Comma, Gt], Dir::Right, qs, qy);
    let prev = acc;
    let acc = acc.push((carry, Symbol::Hash, find, Symbol::Hash, Dir::Right));
    lemma_lookup_push(prev, (carry, Symbol::Hash, find, Symbol::Hash, Dir::Right), qs, qy);
    let prev = acc;
    let acc = acc + scan_rules(find, seq![X, Y], Dir::Right);
    lemma_lookup_scan(prev, find, seq![X, Y], Dir::Right, qs, qy);
    let acc = if c_sym == Zero {
        let prev = acc;
        let acc = acc.push((find, Zero, CmpStOk, X, Dir::Left));
        lemma_lookup_push(prev, (find, Zero, CmpStOk, X, Dir::Left), qs, qy);
        let prev = acc;
        let acc = acc.push((find, One, CmpStFail, Y, Dir::Left));
        lemma_lookup_push(prev, (find, One, CmpStFail, Y, Dir::Left), qs, qy);
        acc
    } else {
        let prev = acc;
        let acc = acc.push((find, One, CmpStOk, Y, Dir::Left));
        lemma_lookup_push(prev, (find, One, CmpStOk, Y, Dir::Left), qs, qy);
        let prev = acc;
        let acc = acc.push((find, Zero, CmpStFail, X, Dir::Left));
        lemma_lookup_push(prev, (find, Zero, CmpStFail, X, Dir::Left), qs, qy);
        acc
    };
    assert(compare_state_bit_from(acc0, c_sym, carry, find) == acc);
}

/// Looking up a rule after `compare_state_rules` adds its rules.
pub proof fn lemma_compare_state_rules_lookup(acc: Seq<Rule<State, Symbol>>, qs: State, qy: Symbol)
    ensures
        lookup_rules(compare_state_rules_from(acc), qs, qy) == compare_state_rules_delta(qs, qy, lookup_rules(acc, qs, qy)),
{
    let acc0 = acc;
    let prev = acc;
    let acc = acc.push((CmpStRead, Zero, CmpStC0, X, Dir::Right));
    lemma_lookup_push(prev, (CmpStRead, Zero, CmpStC0, X, Dir::Right), qs, qy);
    let prev = acc;
    let acc = acc.push((CmpStRead, One, CmpStC1, Y, Dir::Right));
    lemma_lookup_push(prev, (CmpStRead, One, CmpStC1, Y, Dir::Right), qs, qy);
    let prev = acc;
    let acc = acc.push((CmpStRead, Pipe, StMatchCleanup, Pipe, Dir::Right));
    lemma_lookup_push(prev, (CmpStRead, Pipe, StMatchCleanup, Pipe, Dir::Right), qs, qy);
    let prev = acc;
    let acc = acc.push((CmpStRead, Comma, StMatchCleanup, Comma, Dir::Right));
    lemma_lookup_push(prev, (CmpStRead, Comma, StMatchCleanup, Comma, Dir::Right), qs, qy);
    let prev = acc;
    let acc = compare_state_bit_from(prev, Zero, CmpStC0, CmpStC0Find);
    lemma_compare_state_bit_lookup(prev, Zero, CmpStC0, CmpStC0Find, qs, qy);
    let prev = acc;
    let acc = compare_state_bit_from(prev, One, CmpStC1, CmpStC1Find);
    lemma_compare_state_bit_lookup(prev, One, CmpStC1, CmpStC1Find, qs, qy);
    assert(compare_state_rules_from(acc0) == acc);
}

/// Looking up a rule after `state_bit_matched_rules` adds its rules.
pub proof fn lemma_state_bit_matched_rules_lookup(acc: Seq<Rule<State, Symbol>>, qs: State, qy: Symbol)
    ensures
        lookup_rules(state_bit_matched_rules_from(acc), qs, qy) == state_bit_matched_rules_delta(qs, qy, lookup_rules(acc, qs, qy)),
{
    let acc0 = acc;
    let prev = acc;
    let acc = acc + seek_star_rules(CmpStOk, CmpStNextbit);
    lemma_lookup_seek_star(prev, CmpStOk, CmpStNextbit, qs, qy);
    let nb = CmpStNextbit;
    let prev = acc;
    let acc = acc + scan_rules(nb, seq![X, Y], Dir::Right);
    lemma_lookup_scan(prev, nb, seq![X, Y], Dir::Right, qs, qy);
    let prev = acc;
    let acc = acc.push((nb, Zero, CmpStC0, X, Dir::Right));
    lemma_lookup_push(prev, (nb, Zero, CmpStC0, X, Dir::Right), qs, qy);
    let prev = acc;
    let acc = acc.push((nb, One, CmpStC1, Y, Dir::Right));
    lemma_lookup_push(prev, (nb, One, CmpStC1, Y, Dir::Right), qs, qy);
    let prev = acc;
    let acc = acc.push((nb, Pipe, StMatchCleanup, Pipe, Dir::Right));
    lemma_lookup_push(prev, (nb, Pipe, StMatchCleanup, Pipe, Dir::Right), qs, qy);
    let prev = acc;
    let acc = acc.push((nb, Comma, StMatchCleanup, Comma, Dir::Right));
    lemma_lookup_push(prev, (nb, Comma, StMatchCleanup, Comma, Dir::Right), qs, qy);
    assert(state_bit_matched_rules_from(acc0) == acc);
}

/// Looking up a rule after `state_match_cleanup_rules` adds its rules.
pub proof fn lemma_state_match_cleanup_rules_lookup(acc: Seq<Rule<State, Symbol>>, qs: State, qy: Symbol)
    ensures
        lookup_rules(state_match_cleanup_rules_from(acc), qs, qy) == state_match_cleanup_rules_delta(qs, qy, lookup_rules(acc, qs, qy)),
{
    let acc0 = acc;
    let smc = StMatchCleanup;
    let prev = acc;
    let acc = acc.push((smc, Zero, StmGoLeft, Zero, Dir::Left));
    lemma_lookup_push(prev, (smc, Zero, StmGoLeft, Zero, Dir::Left), qs, qy);
    let prev = acc;
    let acc = acc.push((smc, One, StmGoLeft, One, Dir::Left));
    lemma_lookup_push(prev, (smc, One, StmGoLeft, One, Dir::Left), qs, qy);
    let prev = acc;
    let acc = acc.push((smc, Pipe, StmGoLeft, Pipe, Dir::Left));
    lemma_lookup_push(prev, (smc, Pipe, StmGoLeft, Pipe, Dir::Left), qs, qy);
    let gl = StmGoLeft;
    let prev = acc;
    let acc = acc.push((gl, Pipe, StmRestoreRule, Pipe, Dir::Left));
    lemma_lookup_push(prev, (gl, Pipe, StmRestoreRule, Pipe, Dir::Left), qs, qy);
    let prev = acc;
    let acc = acc.push((gl, Comma, StmRestoreRule, Comma, Dir::Left));
    lemma_lookup_push(prev, (gl, Comma, StmRestoreRule, Comma, Dir::Left), qs, qy);
    let prev = acc;
    let acc = acc + scan_rules(gl, seq![Zero, One], Dir::Left);
    lemma_lookup_scan(prev, gl, seq![Zero, One], Dir::Left, qs, qy);
    let rr = StmRestoreRule;
    let prev = acc;
    let acc = acc.push((rr, X, rr, Zero, Dir::Left));
    lemma_lookup_push(prev, (rr, X, rr, Zero, Dir::Left), qs, qy);
    let prev = acc;
    let acc = acc.push((rr, Y, rr, One, Dir::Left));
    lemma_lookup_push(prev, (rr, Y, rr, One, Dir::Left), qs, qy);
    let prev = acc;
    let acc = acc + scan_rules(rr, seq![Zero, One], Dir::Left);
    lemma_lookup_scan(prev, rr, seq![Zero, One], Dir::Left, qs, qy);
    let prev = acc;
    let acc = acc.push((rr, Star, StmGotoState, Star, Dir::Right));
    lemma_lookup_push(prev, (rr, Star, StmGotoState, Star, Dir::Right), qs, qy);
    assert(state_match_cleanup_rules_from(acc0) == acc);
}

/// Looking up a rule after `state_match_restore_rules` adds its rules.
pub proof fn lemma_state_match_restore_rules_lookup(acc: Seq<Rule<State, Symbol>>, qs: State, qy: Symbol)
    ensures
        lookup_rules(state_match_restore_rules_from(acc), qs, qy) == state_match_restore_rules_delta(qs, qy, lookup_rules(acc, qs, qy)),
{
    let acc0 = acc;
    let gs = StmGotoState;
    let syms = (seq![Zero, One, X, Y, Pipe, L, R, Comma] + seq![Semi, Dot, Gt]);
    let prev = acc;
    let acc = acc + scan_rules(gs, syms, Dir::Right);
    lemma_lookup_scan(prev, gs, syms, Dir::Right, qs, qy);
    let prev = acc;
    let acc = acc.push((gs, Symbol::Hash, StmRestoreState, Symbol::Hash, Dir::Right));
    lemma_lookup_push(prev, (gs, Symbol::Hash, StmRestoreState, Symbol::Hash, Dir::Right), qs, qy);
    let rs = StmRestoreState;
    let prev = acc;
    let acc = acc.push((rs, X, rs, Zero, Dir::Right));
    lemma_lookup_push(prev, (rs, X, rs, Zero, Dir::Right), qs, qy);
    let prev = acc;
    let acc = acc.push((rs, Y, rs, One, Dir::Right));
    lemma_lookup_push(prev, (rs, Y, rs, One, Dir::Right), qs, qy);
    let prev = acc;
    let acc = acc + scan_rules(rs, seq![Zero, One], Dir::Right);
    lemma_lookup_scan(prev, rs, seq![Zero, One], Dir::Right, qs, qy);
    let prev = acc;
    let acc = acc.push((rs, Symbol::Hash, StmBackToRule, Symbol::Hash, Dir::Left));
    lemma_lookup_push(prev, (rs, Symbol::Hash, StmBackToRule, Symbol::Hash, Dir::Left), qs, qy);
    let prev = acc;
    let acc = acc + seek_star_rules(StmBackToRule, SymSkipState);
    lemma_lookup_seek_star(prev, StmBackToRule, SymSkipState, qs, qy);
    let ss = SymSkipState;
    let prev = acc;
    let acc = acc + scan_rules(ss, seq![Zero, One], Dir::Right);
    lemma_lookup_scan(prev, ss, seq![Zero, One], Dir::Right, qs, qy);
    let prev = acc;
    let acc = acc.push((ss, Pipe, CmpSymRead, Pipe, Dir::Right));
    lemma_lookup_push(prev, (ss, Pipe, CmpSymRead, Pipe, Dir::Right), qs, qy);
    let prev = acc;
    let acc = acc.push((ss, Comma, CmpSymRead, Caret, Dir::Right));
    lemma_lookup_push(prev, (ss, Comma, CmpSymRead, Caret, Dir::Right), qs, qy);
    assert(state_match_restore_rules_from(acc0) == acc);
}

/// Looking up a rule after `state_mismatch_rules` adds its rules.
pub proof fn lemma_state_mismatch_rules_lookup(acc: Seq<Rule<State, Symbol>>, qs: State, qy: Symbol)
    ensures
        lookup_rules(state_mismatch_rules_from(acc), qs, qy) == state_mismatch_rules_delta(qs, qy, lookup_rules(acc, qs, qy)),
{
    let acc0 = acc;
    let sf = CmpStFail;
    let prev = acc;
    let acc = acc + scan_rules(sf, seq![Zero, One, X, Y], Dir::Left);
    lemma_lookup_scan(prev, sf, seq![Zero, One, X, Y], Dir::Left, qs, qy);
    let prev = acc;
    let acc = acc.push((sf, Symbol::Hash, StfRestoreState, Symbol::Hash, Dir::Right));
    lemma_lookup_push(prev, (sf, Symbol::Hash, StfRestoreState, Symbol::Hash, Dir::Right), qs, qy);
    let rs = StfRestoreState;
    let prev = acc;
    let acc = acc.push((rs, X, rs, Zero, Dir::Right));
    lemma_lookup_push(prev, (rs, X, rs, Zero, Dir::Right), qs, qy);
    let prev = acc;
    let acc = acc.push((rs, Y, rs, One, Dir::Right));
    lemma_lookup_push(prev, (rs, Y, rs, One, Dir::Right), qs, qy);
    let prev = acc;
    let acc = acc + scan_rules(rs, seq![Zero, One], Dir::Right);
    lemma_lookup_scan(prev, rs, seq![Zero, One], Dir::Right, qs, qy);
    let prev = acc;
    let acc = acc.push((rs, Symbol::Hash, StfFindStar, Symbol::Hash, Dir::Left));
    lemma_lookup_push(prev, (rs, Symbol::Hash, StfFindStar, Symbol::Hash, Dir::Left), qs, qy);
    let syms = (seq![Zero, One, X, Y] + seq![Semi, Symbol::Hash, Pipe, Dot, L, R, Comma, Gt]);
    let prev = acc;
    let acc = acc + scan_rules(StfFindStar, syms, Dir::Left);
    lemma_lookup_scan(prev, StfFindStar, syms, Dir::Left, qs, qy);
    let prev = acc;
    let acc = acc.push((StfFindStar, Star, StfRestoreRule, Dot, Dir::Right));
    lemma_lookup_push(prev, (StfFindStar, Star, StfRestoreRule, Dot, Dir::Right), qs, qy);
    let rr = StfRestoreRule;
    let prev = acc;
    let acc = acc.push((rr, X, rr, Zero, Dir::Right));
    lemma_lookup_push(prev, (rr, X, rr, Zero, Dir::Right), qs, qy);
    let prev = acc;
    let acc = acc.push((rr, Y, rr, One, Dir::Right));
    lemma_lookup_push(prev, (rr, Y, rr, One, Dir::Right), qs, qy);
    let prev = acc;
    let acc = acc + scan_rules(rr, seq![Zero, One], Dir::Right);
    lemma_lookup_scan(prev, rr, seq![Zero, One], Dir::Right, qs, qy);
    let prev = acc;
    let acc = acc.push((rr, Pipe, StfGoPrev, Pipe, Dir::Left));
    lemma_lookup_push(prev, (rr, Pipe, StfGoPrev, Pipe, Dir::Left), qs, qy);
    let prev = acc;
    let acc = acc.push((rr, Comma, StfGoPrev, Comma, Dir::Left));
    lemma_lookup_push(prev, (rr, Comma, StfGoPrev, Comma, Dir::Left), qs, qy);
    let gp = StfGoPrev;
    let prev = acc;
    let acc = acc + scan_rules(gp, seq![Zero, One], Dir::Left);
    lemma_lookup_scan(prev, gp, seq![Zero, One], Dir::Left, qs, qy);
    let prev = acc;
    let acc = acc.push((gp, Dot, MarkRule, Dot, Dir::Left));
    lemma_lookup_push(prev, (gp, Dot, MarkRule, Dot, Dir::Left), qs, qy);
    assert(state_mismatch_rules_from(acc0) == acc);
}

/// Looking up a rule after `compare_symbol_bit` adds its rules.
pub proof fn lemma_compare_symbol_bit_lookup(acc: Seq<Rule<State, Symbol>>, c: u8, carry: State, s1: State, fh: State, fb: State, qs: State, qy: Symbol)
    ensures
        lookup_rules(compare_symbol_bit_from(acc, c, carry, s1, fh, fb), qs, qy) == compare_symbol_bit_delta(c, carry, s1, fh, fb, qs, qy, lookup_rules(acc, qs, qy)),
{
    let acc0 = acc;
    let prev = acc;
    let acc = acc + scan_rules(carry, seq![Zero, One, X, Y, Pipe, L, R, Semi, Dot, Star, Comma, Gt], Dir::Right);
    lemma_lookup_scan(prev, carry, seq![Zero, One, X, Y, Pipe, L, R, Semi, Dot, Star, Comma, Gt], Dir::Right, qs, qy);
    let prev = acc;
    let acc = acc.push((carry, Symbol::Hash, s1, Symbol::Hash, Dir::Right));
    lemma_lookup_push(prev, (carry, Symbol::Hash, s1, Symbol::Hash, Dir::Right), qs, qy);
    let prev = acc;
    let acc = acc + scan_rules(s1, seq![Zero, One, X, Y], Dir::Right);
    lemma_lookup_scan(prev, s1, seq![Zero, One, X, Y], Dir::Right, qs, qy);
    let prev = acc;
    let acc = acc.push((s1, Symbol::Hash, fh, Symbol::Hash, Dir::Right));
    lemma_lookup_push(prev, (s1, Symbol::Hash, fh, Symbol::Hash, Dir::Right), qs, qy);
    let syms = (seq![Zero, One, X, Y] + seq![Comma]);
    let prev = acc;
    let acc = acc + scan_rules(fh, syms, Dir::Right);
    lemma_lookup_scan(prev, fh, syms, Dir::Right, qs, qy);
    let prev = acc;
    let acc = acc.push((fh, Caret, fb, Caret, Dir::Right));
    lemma_lookup_push(prev, (fh, Caret, fb, Caret, Dir::Right), qs, qy);
    let prev = acc;
    let acc = acc + scan_rules(fb, seq![X, Y], Dir::Right);
    lemma_lookup_scan(prev, fb, seq![X, Y], Dir::Right, qs, qy);
    let acc = if c == 0 {
        let prev = acc;
        let acc = acc.push((fb, Zero, CmpSymOk, X, Dir::Left));
        lemma_lookup_push(prev, (fb, Zero, CmpSymOk, X, Dir::Left), qs, qy);
        let prev = acc;
        let acc = acc.push((fb, One, CmpSymFail, Y, Dir::Left));
        lemma_lookup_push(prev, (fb, One, CmpSymFail, Y, Dir::Left), qs, qy);
        acc
    } else {
        let prev = acc;
        let acc = acc.push((fb, One, CmpSymOk, Y, Dir::Left));
        lemma_lookup_push(prev, (fb, One, CmpSymOk, Y, Dir::Left), qs, qy);
        let prev = acc;
        let acc = acc.push((fb, Zero, CmpSymFail, X, Dir::Left));
        lemma_lookup_push(prev, (fb, Zero, CmpSymFail, X, Dir::Left), qs, qy);
        acc
    };
    assert(compare_symbol_bit_from(acc0, c, carry, s1, fh, fb) == acc);
}

/// Looking up a rule after `compare_symbol_rules` adds its rules.
pub proof fn lemma_compare_symbol_rules_lookup(acc: Seq<Rule<State, Symbol>>, qs: State, qy: Symbol)
    ensures
        lookup_rules(compare_symbol_rules_from(acc), qs, qy) == compare_symbol_rules_delta(qs, qy, lookup_rules(acc, qs, qy)),
{
    let acc0 = acc;
    let prev = acc;
    let acc = acc.push((CmpSymRead, Zero, CmpSymC0, X, Dir::Right));
    lemma_lookup_push(prev, (CmpSymRead, Zero, CmpSymC0, X, Dir::Right), qs, qy);
    let prev = acc;
    let acc = acc.push((CmpSymRead, One, CmpSymC1, Y, Dir::Right));
    lemma_lookup_push(prev, (CmpSymRead, One, CmpSymC1, Y, Dir::Right), qs, qy);
    let prev = acc;
    let acc = acc.push((CmpSymRead, Pipe, SymMatchCleanup, Pipe, Dir::Right));
    lemma_lookup_push(prev, (CmpSymRead, Pipe, SymMatchCleanup, Pipe, Dir::Right), qs, qy);
    let prev = acc;
    let acc = compare_symbol_bit_from(prev, 0, CmpSymC0, CmpSymC0S1, CmpSymC0Fh, CmpSymC0Fb);
    lemma_compare_symbol_bit_lookup(prev, 0, CmpSymC0, CmpSymC0S1, CmpSymC0Fh, CmpSymC0Fb, qs, qy);
    let prev = acc;
    let acc = compare_symbol_bit_from(prev, 1, CmpSymC1, CmpSymC1S1, CmpSymC1Fh, CmpSymC1Fb);
    lemma_compare_symbol_bit_lookup(prev, 1, CmpSymC1, CmpSymC1S1, CmpSymC1Fh, CmpSymC1Fb, qs, qy);
    assert(compare_symbol_rules_from(acc0) == acc);
}

/// Looking up a rule after `symbol_bit_matched_rules` adds its rules.
pub proof fn lemma_symbol_bit_matched_rules_lookup(acc: Seq<Rule<State, Symbol>>, qs: State, qy: Symbol)
    ensures
        lookup_rules(symbol_bit_matched_rules_from(acc), qs, qy) == symbol_bit_matched_rules_delta(qs, qy, lookup_rules(acc, qs, qy)),
{
    let acc0 = acc;
    let prev = acc;
    let acc = acc + seek_star_rules(CmpSymOk, CmpSymNextbit);
    lemma_lookup_seek_star(prev, CmpSymOk, CmpSymNextbit, qs, qy);
    let nb = CmpSymNextbit;
    let prev = acc;
    let acc = acc + scan_rules(nb, seq![Zero, One, Comma], Dir::Right);
    lemma_lookup_scan(prev, nb, seq![Zero, One, Comma], Dir::Right, qs, qy);
    let prev = acc;
    let acc = acc.push((nb, Pipe, CmpSymNb2, Pipe, Dir::Right));
    lemma_lookup_push(prev, (nb, Pipe, CmpSymNb2, Pipe, Dir::Right), qs, qy);
    let prev = acc;
    let acc = acc.push((nb, Caret, NpNextbit, Caret, Dir::Right));
    lemma_lookup_push(prev, (nb, Caret, NpNextbit, Caret, Dir::Right), qs, qy);
    let nb2 = CmpSymNb2;
    let prev = acc;
    let acc = acc + scan_rules(nb2, seq![X, Y], Dir::Right);
    lemma_lookup_scan(prev, nb2, seq![X, Y], Dir::Right, qs, qy);
    let prev = acc;
    let acc = acc.push((nb2, Zero, CmpSymC0, X, Dir::Right));
    lemma_lookup_push(prev, (nb2, Zero, CmpSymC0, X, Dir::Right), qs, qy);
    let prev = acc;
    let acc = acc.push((nb2, One, CmpSymC1, Y, Dir::Right));
    lemma_lookup_push(prev, (nb2, One, CmpSymC1, Y, Dir::Right), qs, qy);
    let prev = acc;
    let acc = acc.push((nb2, Pipe, SymMatchCleanup, Pipe, Dir::Right));
    lemma_lookup_push(prev, (nb2, Pipe, SymMatchCleanup, Pipe, Dir::Right), qs, qy);
    let np = NpNextbit;
    let prev = acc;
    let acc = acc + scan_rules(np, seq![X, Y], Dir::Right);
    lemma_lookup_scan(prev, np, seq![X, Y], Dir::Right, qs, qy);
    let prev = acc;
    let acc = acc.push((np, Zero, CmpSymC0, X, Dir::Right));
    lemma_lookup_push(prev, (np, Zero, CmpSymC0, X, Dir::Right), qs, qy);
    let prev = acc;
    let acc = acc.push((np, One, CmpSymC1, Y, Dir::Right));
    lemma_lookup_push(prev, (np, One, CmpSymC1, Y, Dir::Right), qs, qy);
    let prev = acc;
    let acc = acc.push((np, Comma, NpMatchPre, Comma, Dir::Left));
    lemma_lookup_push(prev, (np, Comma, NpMatchPre, Comma, Dir::Left), qs, qy);
    let prev = acc;
    let acc = acc.push((np, Pipe, NpMatchPre, Pipe, Dir::Left));
    lemma_lookup_push(prev, (np, Pipe, NpMatchPre, Pipe, Dir::Left), qs, qy);
    let mp = NpMatchPre;
    let prev = acc;
    let acc = acc + scan_rules(mp, seq![X, Y], Dir::Left);
    lemma_lookup_scan(prev, mp, seq![X, Y], Dir::Left, qs, qy);
    let prev = acc;
    let acc = acc.push((mp, Caret, SymMatchCleanup, Comma, Dir::Right));
    lemma_lookup_push(prev, (mp, Caret, SymMatchCleanup, Comma, Dir::Right), qs, qy);
    assert(symbol_bit_matched_rules_from(acc0) == acc);
}

/// Looking up a rule after `symbol_mismatch_rules` adds its rules.
pub proof fn lemma_symbol_mismatch_rules_lookup(acc: Seq<Rule<State, Symbol>>, qs: State, qy: Symbol)
    ensures
        lookup_rules(symbol_mismatch_rules_from(acc), qs, qy) == symbol_mismatch_rules_delta(qs, qy, lookup_rules(acc, qs, qy)),
{
    let acc0 = acc;
    let sf = CmpSymFail;
    let prev = acc;
    let acc = acc + scan_rules(sf, seq![Zero, One, X, Y], Dir::Left);
    lemma_lookup_scan(prev, sf, seq![Zero, One, X, Y], Dir::Left, qs, qy);
    let prev = acc;
    let acc = acc.push((sf, Caret, SymfRestHead, Caret, Dir::Right));
    lemma_lookup_push(prev, (sf, Caret, SymfRestHead, Caret, Dir::Right), qs, qy);
    let rh = SymfRestHead;
    let prev = acc;
    let acc = acc.push((rh, X, rh, Zero, Dir::Right));
    lemma_lookup_push(prev, (rh, X, rh, Zero, Dir::Right), qs, qy);
    let prev = acc;
    let acc = acc.push((rh, Y, rh, One, Dir::Right));
    lemma_lookup_push(prev, (rh, Y, rh, One, Dir::Right), qs, qy);
    let prev = acc;
    let acc = acc + scan_rules(rh, seq![Zero, One], Dir::Right);
    lemma_lookup_scan(prev, rh, seq![Zero, One], Dir::Right, qs, qy);
    let prev = acc;
    let acc = acc.push((rh, Comma, SymfSeekStar, Comma, Dir::Left));
    lemma_lookup_push(prev, (rh, Comma, SymfSeekStar, Comma, Dir::Left), qs, qy);
    let prev = acc;
    let acc = acc.push((rh, Blank, SymfSeekStar, Blank, Dir::Left));
    lemma_lookup_push(prev, (rh, Blank, SymfSeekStar, Blank, Dir::Left), qs, qy);
    let prev = acc;
    let acc = acc + seek_star_rules(SymfSeekStar, SymfSkipSt);
    lemma_lookup_seek_star(prev, SymfSeekStar, SymfSkipSt, qs, qy);
    let ss = SymfSkipSt;
    let prev = acc;
    let acc = acc + scan_rules(ss, seq![Zero, One, Comma], Dir::Right);
    lemma_lookup_scan(prev, ss, seq![Zero, One, Comma], Dir::Right, qs, qy);
    let prev = acc;
    let acc = acc.push((ss, Pipe, SymfRestSym, Pipe, Dir::Right));
    lemma_lookup_push(prev, (ss, Pipe, SymfRestSym, Pipe, Dir::Right), qs, qy);
    let prev = acc;
    let acc = acc.push((ss, Caret, NpSymfRestore, Comma, Dir::Right));
    lemma_lookup_push(prev, (ss, Caret, NpSymfRestore, Comma, Dir::Right), qs, qy);
    assert(symbol_mismatch_rules_from(acc0) == acc);
}

/// Looking up a rule after `symbol_mismatch_restore_rules` adds its rules.
pub proof fn lemma_symbol_mismatch_restore_rules_lookup(acc: Seq<Rule<State, Symbol>>, qs: State, qy: Symbol)
    ensures
        lookup_rules(symbol_mismatch_restore_rules_from(acc), qs, qy) == symbol_mismatch_restore_rules_delta(qs, qy, lookup_rules(acc, qs, qy)),
{
    let acc0 = acc;
    let nr = NpSymfRestore;
    let prev = acc;
    let acc = acc.push((nr, X, nr, Zero, Dir::Right));
    lemma_lookup_push(prev, (nr, X, nr, Zero, Dir::Right), qs, qy);
    let prev = acc;
    let acc = acc.push((nr, Y, nr, One, Dir::Right));
    lemma_lookup_push(prev, (nr, Y, nr, One, Dir::Right), qs, qy);
    let prev = acc;
    let acc = acc + scan_rules(nr, seq![Zero, One], Dir::Right);
    lemma_lookup_scan(prev, nr, seq![Zero, One], Dir::Right, qs, qy);
    let prev = acc;
    let acc = acc.push((nr, Comma, CmpSymRead, Caret, Dir::Right));
    lemma_lookup_push(prev, (nr, Comma, CmpSymRead, Caret, Dir::Right), qs, qy);
    let prev = acc;
    let acc = acc.push((nr, Pipe, SymfDeactivate, Pipe, Dir::Left));
    lemma_lookup_push(prev, (nr, Pipe, SymfDeactivate, Pipe, Dir::Left), qs, qy);
    let rs = SymfRestSym;
    let prev = acc;
    let acc = acc.push((rs, X, rs, Zero, Dir::Right));
    lemma_lookup_push(prev, (rs, X, rs, Zero, Dir::Right), qs, qy);
    let prev = acc;
    let acc = acc.push((rs, Y, rs, One, Dir::Right));
    lemma_lookup_push(prev, (rs, Y, rs, One, Dir::Right), qs, qy);
    let prev = acc;
    let acc = acc + scan_rules(rs, seq![Zero, One], Dir::Right);
    lemma_lookup_scan(prev, rs, seq![Zero, One], Dir::Right, qs, qy);
    let prev = acc;
    let acc = acc.push((rs, Pipe, SymfDeactivate, Pipe, Dir::Left));
    lemma_lookup_push(prev, (rs, Pipe, SymfDeactivate, Pipe, Dir::Left), qs, qy);
    let da = SymfDeactivate;
    let syms = (seq![Zero, One] + seq![Pipe, Comma]);
    let prev = acc;
    let acc = acc + scan_rules(da, syms, Dir::Left);
    lemma_lookup_scan(prev, da, syms, Dir::Left, qs, qy);
    let prev = acc;
    let acc = acc.push((da, Star, MarkRule, Dot, Dir::Left));
    lemma_lookup_push(prev, (da, Star, MarkRule, Dot, Dir::Left), qs, qy);
    assert(symbol_mismatch_restore_rules_from(acc0) == acc);
}

/// Looking up a rule after `symbol_match_cleanup_rules` adds its rules.
pub proof fn lemma_symbol_match_cleanup_rules_lookup(acc: Seq<Rule<State, Symbol>>, qs: State, qy: Symbol)
    ensures
        lookup_rules(symbol_match_cleanup_rules_from(acc), qs, qy) == symbol_match_cleanup_rules_delta(qs, qy, lookup_rules(acc, qs, qy)),
{
    let acc0 = acc;
    let sc = SymMatchCleanup;
    let syms = (seq![Zero, One, X, Y, Pipe, L, R, Comma] + seq![Semi, Dot, Gt]);
    let prev = acc;
    let acc = acc + scan_rules(sc, syms, Dir::Right);
    lemma_lookup_scan(prev, sc, syms, Dir::Right, qs, qy);
    let prev = acc;
    let acc = acc.push((sc, Symbol::Hash, SmcS1, Symbol::Hash, Dir::Right));
    lemma_lookup_push(prev, (sc, Symbol::Hash, SmcS1, Symbol::Hash, Dir::Right), qs, qy);
    let s1 = SmcS1;
    let prev = acc;
    let acc = acc + scan_rules(s1, seq![Zero, One, X, Y], Dir::Right);
    lemma_lookup_scan(prev, s1, seq![Zero, One, X, Y], Dir::Right, qs, qy);
    let prev = acc;
    let acc = acc.push((s1, Symbol::Hash, SmcFh, Symbol::Hash, Dir::Right));
    lemma_lookup_push(prev, (s1, Symbol::Hash, SmcFh, Symbol::Hash, Dir::Right), qs, qy);
    let fh = SmcFh;
    let syms = (seq![Zero, One, X, Y] + seq![Comma]);
    let prev = acc;
    let acc = acc + scan_rules(fh, syms, Dir::Right);
    lemma_lookup_scan(prev, fh, syms, Dir::Right, qs, qy);
    let prev = acc;
    let acc = acc.push((fh, Caret, SmcRestHead, Caret, Dir::Right));
    lemma_lookup_push(prev, (fh, Caret, SmcRestHead, Caret, Dir::Right), qs, qy);
    let rh = SmcRestHead;
    let prev = acc;
    let acc = acc.push((rh, X, rh, Zero, Dir::Right));
    lemma_lookup_push(prev, (rh, X, rh, Zero, Dir::Right), qs, qy);
    let prev = acc;
    let acc = acc.push((rh, Y, rh, One, Dir::Right));
    lemma_lookup_push(prev, (rh, Y, rh, One, Dir::Right), qs, qy);
    let prev = acc;
    let acc = acc + scan_rules(rh, seq![Zero, One], Dir::Right);
    lemma_lookup_scan(prev, rh, seq![Zero, One], Dir::Right, qs, qy);
    let prev = acc;
    let acc = acc.push((rh, Comma, SmcRestDone, Comma, Dir::Left));
    lemma_lookup_push(prev, (rh, Comma, SmcRestDone, Comma, Dir::Left), qs, qy);
    let prev = acc;
    let acc = acc.push((rh, Blank, SmcRestDone, Blank, Dir::Left));
    lemma_lookup_push(prev, (rh, Blank, SmcRestDone, Blank, Dir::Left), qs, qy);
    assert(symbol_match_cleanup_rules_from(acc0) == acc);
}

/// Looking up a rule after `symbol_match_restore_rules` adds its rules.
pub proof fn lemma_symbol_match_restore_rules_lookup(acc: Seq<Rule<State, Symbol>>, qs: State, qy: Symbol)
    ensures
        lookup_rules(symbol_match_restore_rules_from(acc), qs, qy) == symbol_match_restore_rules_delta(qs, qy, lookup_rules(acc, qs, qy)),
{
    let acc0 = acc;
    let prev = acc;
    let acc = acc + seek_star_rules(SmcRestDone, SmcSkipSt);
    lemma_lookup_seek_star(prev, SmcRestDone, SmcSkipSt, qs, qy);
    let ss = SmcSkipSt;
    let prev = acc;
    let acc = acc + scan_rules(ss, seq![Zero, One], Dir::Right);
    lemma_lookup_scan(prev, ss, seq![Zero, One], Dir::Right, qs, qy);
    let prev = acc;
    let acc = acc.push((ss, Pipe, SmcRestSym, Pipe, Dir::Right));
    lemma_lookup_push(prev, (ss, Pipe, SmcRestSym, Pipe, Dir::Right), qs, qy);
    let prev = acc;
    let acc = acc.push((ss, Comma, NpSmcHandler, Comma, Dir::Right));
    lemma_lookup_push(prev, (ss, Comma, NpSmcHandler, Comma, Dir::Right), qs, qy);
    let h = NpSmcHandler;
    let prev = acc;
    let acc = acc.push((h, X, h, Zero, Dir::Right));
    lemma_lookup_push(prev, (h, X, h, Zero, Dir::Right), qs, qy);
    let prev = acc;
    let acc = acc.push((h, Y, h, One, Dir::Right));
    lemma_lookup_push(prev, (h, Y, h, One, Dir::Right), qs, qy);
    let prev = acc;
    let acc = acc + scan_rules(h, seq![Zero, One, Comma], Dir::Right);
    lemma_lookup_scan(prev, h, seq![Zero, One, Comma], Dir::Right, qs, qy);
    let prev = acc;
    let acc = acc.push((h, Pipe, NpReadDir, Pipe, Dir::Right));
    lemma_lookup_push(prev, (h, Pipe, NpReadDir, Pipe, Dir::Right), qs, qy);
    let prev = acc;
    let acc = acc.push((NpReadDir, L, MoveLeft, L, Dir::Left));
    lemma_lookup_push(prev, (NpReadDir, L, MoveLeft, L, Dir::Left), qs, qy);
    let prev = acc;
    let acc = acc.push((NpReadDir, R, MoveRight, R, Dir::Left));
    lemma_lookup_push(prev, (NpReadDir, R, MoveRight, R, Dir::Left), qs, qy);
    let rs = SmcRestSym;
    let prev = acc;
    let acc = acc.push((rs, X, rs, Zero, Dir::Right));
    lemma_lookup_push(prev, (rs, X, rs, Zero, Dir::Right), qs, qy);
    let prev = acc;
    let acc = acc.push((rs, Y, rs, One, Dir::Right));
    lemma_lookup_push(prev, (rs, Y, rs, One, Dir::Right), qs, qy);
    let prev = acc;
    let acc = acc + scan_rules(rs, seq![Zero, One], Dir::Right);
    lemma_lookup_scan(prev, rs, seq![Zero, One], Dir::Right, qs, qy);
    let prev = acc;
    let acc = acc.push((rs, Pipe, ApplyReadNst, Pipe, Dir::Right));
    lemma_lookup_push(prev, (rs, Pipe, ApplyReadNst, Pipe, Dir::Right), qs, qy);
    assert(symbol_match_restore_rules_from(acc0) == acc);
}

/// Looking up a rule after `copy_state_bit` adds its rules.
pub proof fn lemma_copy_state_bit_lookup(acc: Seq<Rule<State, Symbol>>, carry: State, w: State, mark: Symbol, qs: State, qy: Symbol)
    ensures
        lookup_rules(copy_state_bit_from(acc, carry, w, mark), qs, qy) == copy_state_bit_delta(carry, w, mark, qs, qy, lookup_rules(acc, qs, qy)),
{
    let acc0 = acc;
    let prev = acc;
    let acc = acc + scan_rules(carry, seq![Zero, One, X, Y, Pipe, L, R, Semi, Dot, Star, Comma, Gt], Dir::Right);
    lemma_lookup_scan(prev, carry, seq![Zero, One, X, Y, Pipe, L, R, Semi, Dot, Star, Comma, Gt], Dir::Right, qs, qy);
    let prev = acc;
    let acc = acc.push((carry, Symbol::Hash, w, Symbol::Hash, Dir::Right));
    lemma_lookup_push(prev, (carry, Symbol::Hash, w, Symbol::Hash, Dir::Right), qs, qy);
    let prev = acc;
    let acc = acc + scan_rules(w, seq![X, Y], Dir::Right);
    lemma_lookup_scan(prev, w, seq![X, Y], Dir::Right, qs, qy);
    let prev = acc;
    let acc = acc.push((w, Zero, CpNstRet, mark, Dir::Left));
    lemma_lookup_push(prev, (w, Zero, CpNstRet, mark, Dir::Left), qs, qy);
    let prev = acc;
    let acc = acc.push((w, One, CpNstRet, mark, Dir::Left));
    lemma_lookup_push(prev, (w, One, CpNstRet, mark, Dir::Left), qs, qy);
    assert(copy_state_bit_from(acc0, carry, w, mark) == acc);
}

/// Looking up a rule after `copy_state_rules` adds its rules.
pub proof fn lemma_copy_state_rules_lookup(acc: Seq<Rule<State, Symbol>>, qs: State, qy: Symbol)
    ensures
        lookup_rules(copy_state_rules_from(acc), qs, qy) == copy_state_rules_delta(qs, qy, lookup_rules(acc, qs, qy)),
{
    let acc0 = acc;
    let prev = acc;
    let acc = acc.push((ApplyReadNst, Zero, CpNstC0, X, Dir::Right));
    lemma_lookup_push(prev, (ApplyReadNst, Zero, CpNstC0, X, Dir::Right), qs, qy);
    let prev = acc;
    let acc = acc.push((ApplyReadNst, One, CpNstC1, Y, Dir::Right));
    lemma_lookup_push(prev, (ApplyReadNst, One, CpNstC1, Y, Dir::Right), qs, qy);
    let prev = acc;
    let acc = acc.push((ApplyReadNst, Pipe, CpNstDone, Pipe, Dir::Left));
    lemma_lookup_push(prev, (ApplyReadNst, Pipe, CpNstDone, Pipe, Dir::Left), qs, qy);
    let prev = acc;
    let acc = copy_state_bit_from(prev, CpNstC0, CpNstC0W, X);
    lemma_copy_state_bit_lookup(prev, CpNstC0, CpNstC0W, X, qs, qy);
    let prev = acc;
    let acc = copy_state_bit_from(prev, CpNstC1, CpNstC1W, Y);
    lemma_copy_state_bit_lookup(prev, CpNstC1, CpNstC1W, Y, qs, qy);
    assert(copy_state_rules_from(acc0) == acc);
}

/// Looking up a rule after `copy_state_next_rules` adds its rules.
pub proof fn lemma_copy_state_next_rules_lookup(acc: Seq<Rule<State, Symbol>>, qs: State, qy: Symbol)
    ensures
        lookup_rules(copy_state_next_rules_from(acc), qs, qy) == copy_state_next_rules_delta(qs, qy, lookup_rules(acc, qs, qy)),
{
    let acc0 = acc;
    let prev = acc;
    let acc = acc + seek_star_rules(CpNstRet, CpNstNext);
    lemma_lookup_seek_star(prev, CpNstRet, CpNstNext, qs, qy);
    let n = CpNstNext;
    let prev = acc;
    let acc = acc + scan_rules(n, seq![Zero, One], Dir::Right);
    lemma_lookup_scan(prev, n, seq![Zero, One], Dir::Right, qs, qy);
    let prev = acc;
    let acc = acc.push((n, Pipe, CpNstNext2, Pipe, Dir::Right));
    lemma_lookup_push(prev, (n, Pipe, CpNstNext2, Pipe, Dir::Right), qs, qy);
    let n2 = CpNstNext2;
    let prev = acc;
    let acc = acc + scan_rules(n2, seq![Zero, One], Dir::Right);
    lemma_lookup_scan(prev, n2, seq![Zero, One], Dir::Right, qs, qy);
    let prev = acc;
    let acc = acc.push((n2, Pipe, CpNstNext3, Pipe, Dir::Right));
    lemma_lookup_push(prev, (n2, Pipe, CpNstNext3, Pipe, Dir::Right), qs, qy);
    let n3 = CpNstNext3;
    let prev = acc;
    let acc = acc + scan_rules(n3, seq![X, Y], Dir::Right);
    lemma_lookup_scan(prev, n3, seq![X, Y], Dir::Right, qs, qy);
    let prev = acc;
    let acc = acc.push((n3, Zero, CpNstC0, X, Dir::Right));
    lemma_lookup_push(prev, (n3, Zero, CpNstC0, X, Dir::Right), qs, qy);
    let prev = acc;
    let acc = acc.push((n3, One, CpNstC1, Y, Dir::Right));
    lemma_lookup_push(prev, (n3, One, CpNstC1, Y, Dir::Right), qs, qy);
    let prev = acc;
    let acc = acc.push((n3, Pipe, CpNstDone, Pipe, Dir::Left));
    lemma_lookup_push(prev, (n3, Pipe, CpNstDone, Pipe, Dir::Left), qs, qy);
    assert(copy_state_next_rules_from(acc0) == acc);
}

/// Looking up a rule after `copy_state_done_rules` adds its rules.
pub proof fn lemma_copy_state_done_rules_lookup(acc: Seq<Rule<State, Symbol>>, qs: State, qy: Symbol)
    ensures
        lookup_rules(copy_state_done_rules_from(acc), qs, qy) == copy_state_done_rules_delta(qs, qy, lookup_rules(acc, qs, qy)),
{
    let acc0 = acc;
    let d = CpNstDone;
    let prev = acc;
    let acc = acc.push((d, X, d, Zero, Dir::Left));
    lemma_lookup_push(prev, (d, X, d, Zero, Dir::Left), qs, qy);
    let prev = acc;
    let acc = acc.push((d, Y, d, One, Dir::Left));
    lemma_lookup_push(prev, (d, Y, d, One, Dir::Left), qs, qy);
    let prev = acc;
    let acc = acc.push((d, Pipe, CpNstRestNav, Pipe, Dir::Right));
    lemma_lookup_push(prev, (d, Pipe, CpNstRestNav, Pipe, Dir::Right), qs, qy);
    let nav = CpNstRestNav;
    let syms = (seq![Zero, One, X, Y, Pipe, L, R, Comma] + seq![Semi, Dot, Gt]);
    let prev = acc;
    let acc = acc + scan_rules(nav, syms, Dir::Right);
    lemma_lookup_scan(prev, nav, syms, Dir::Right, qs, qy);
    let prev = acc;
    let acc = acc.push((nav, Symbol::Hash, CpNstRestDo, Symbol::Hash, Dir::Right));
    lemma_lookup_push(prev, (nav, Symbol::Hash, CpNstRestDo, Symbol::Hash, Dir::Right), qs, qy);
    let rd = CpNstRestDo;
    let prev = acc;
    let acc = acc.push((rd, X, rd, Zero, Dir::Right));
    lemma_lookup_push(prev, (rd, X, rd, Zero, Dir::Right), qs, qy);
    let prev = acc;
    let acc = acc.push((rd, Y, rd, One, Dir::Right));
    lemma_lookup_push(prev, (rd, Y, rd, One, Dir::Right), qs, qy);
    let prev = acc;
    let acc = acc + scan_rules(rd, seq![Zero, One], Dir::Right);
    lemma_lookup_scan(prev, rd, seq![Zero, One], Dir::Right, qs, qy);
    let prev = acc;
    let acc = acc.push((rd, Symbol::Hash, CpNsymSeek, Symbol::Hash, Dir::Left));
    lemma_lookup_push(prev, (rd, Symbol::Hash, CpNsymSeek, Symbol::Hash, Dir::Left), qs, qy);
    let prev = acc;
    let acc = acc + seek_star_rules(CpNsymSeek, CpNsymNav);
    lemma_lookup_seek_star(prev, CpNsymSeek, CpNsymNav, qs, qy);
    assert(copy_state_done_rules_from(acc0) == acc);
}

/// Looking up a rule after `copy_symbol_nav_rules` adds its rules.
pub proof fn lemma_copy_symbol_nav_rules_lookup(acc: Seq<Rule<State, Symbol>>, qs: State, qy: Symbol)
    ensures
        lookup_rules(copy_symbol_nav_rules_from(acc), qs, qy) == copy_symbol_nav_rules_delta(qs, qy, lookup_rules(acc, qs, qy)),
{
    let acc0 = acc;
    let n = CpNsymNav;
    let prev = acc;
    let acc = acc + scan_rules(n, seq![Zero, One], Dir::Right);
    lemma_lookup_scan(prev, n, seq![Zero, One], Dir::Right, qs, qy);
    let prev = acc;
    let acc = acc.push((n, Pipe, CpNsymNav2, Pipe, Dir::Right));
    lemma_lookup_push(prev, (n, Pipe, CpNsymNav2, Pipe, Dir::Right), qs, qy);
    let n2 = CpNsymNav2;
    let prev = acc;
    let acc = acc + scan_rules(n2, seq![Zero, One], Dir::Right);
    lemma_lookup_scan(prev, n2, seq![Zero, One], Dir::Right, qs, qy);
    let prev = acc;
    let acc = acc.push((n2, Pipe, CpNsymNav3, Pipe, Dir::Right));
    lemma_lookup_push(prev, (n2, Pipe, CpNsymNav3, Pipe, Dir::Right), qs, qy);
    let n3 = CpNsymNav3;
    let prev = acc;
    let acc = acc + scan_rules(n3, seq![Zero, One], Dir::Right);
    lemma_lookup_scan(prev, n3, seq![Zero, One], Dir::Right, qs, qy);
    let prev = acc;
    let acc = acc.push((n3, Pipe, CpNsymRead, Pipe, Dir::Right));
    lemma_lookup_push(prev, (n3, Pipe, CpNsymRead, Pipe, Dir::Right), qs, qy);
    let prev = acc;
    let acc = acc.push((CpNsymRead, Zero, CpNsymC0, X, Dir::Right));
    lemma_lookup_push(prev, (CpNsymRead, Zero, CpNsymC0, X, Dir::Right), qs, qy);
    let prev = acc;
    let acc = acc.push((CpNsymRead, One, CpNsymC1, Y, Dir::Right));
    lemma_lookup_push(prev, (CpNsymRead, One, CpNsymC1, Y, Dir::Right), qs, qy);
    let prev = acc;
    let acc = acc.push((CpNsymRead, Pipe, CpNsymDone, Pipe, Dir::Left));
    lemma_lookup_push(prev, (CpNsymRead, Pipe, CpNsymDone, Pipe, Dir::Left), qs, qy);
    assert(copy_symbol_nav_rules_from(acc0) == acc);
}

/// Looking up a rule after `copy_symbol_bit` adds its rules.
pub proof fn lemma_copy_symbol_bit_lookup(acc: Seq<Rule<State, Symbol>>, carry: State, s1: State, fh: State, fb: State, mark: Symbol, qs: State, qy: Symbol)
    ensures
        lookup_rules(copy_symbol_bit_from(acc, carry, s1, fh, fb, mark), qs, qy) == copy_symbol_bit_delta(carry, s1, fh, fb, mark, qs, qy, lookup_rules(acc, qs, qy)),
{
    let acc0 = acc;
    let prev = acc;
    let acc = acc + scan_rules(carry, seq![Zero, One, X, Y, Pipe, L, R, Semi, Dot, Star, Comma, Gt], Dir::Right);
    lemma_lookup_scan(prev, carry, seq![Zero, One, X, Y, Pipe, L, R, Semi, Dot, Star, Comma, Gt], Dir::Right, qs, qy);
    let prev = acc;
    let acc = acc.push((carry, Symbol::Hash, s1, Symbol::Hash, Dir::Right));
    lemma_lookup_push(prev, (carry, Symbol::Hash, s1, Symbol::Hash, Dir::Right), qs, qy);
    let prev = acc;
    let acc = acc + scan_rules(s1, seq![Zero, One, X, Y], Dir::Right);
    lemma_lookup_scan(prev, s1, seq![Zero, One, X, Y], Dir::Right, qs, qy);
    let prev = acc;
    let acc = acc.push((s1, Symbol::Hash, fh, Symbol::Hash, Dir::Right));
    lemma_lookup_push(prev, (s1, Symbol::Hash, fh, Symbol::Hash, Dir::Right), qs, qy);
    let syms = (seq![Zero, One, X, Y] + seq![Comma]);
    let prev = acc;
    let acc = acc + scan_rules(fh, syms, Dir::Right);
    lemma_lookup_scan(prev, fh, syms, Dir::Right, qs, qy);
    let prev = acc;
    let acc = acc.push((fh, Caret, fb, Caret, Dir::Right));
    lemma_lookup_push(prev, (fh, Caret, fb, Caret, Dir::Right), qs, qy);
    let prev = acc;
    let acc = acc + scan_rules(fb, seq![X, Y], Dir::Right);
    lemma_lookup_scan(prev, fb, seq![X, Y], Dir::Right, qs, qy);
    let prev = acc;
    let acc = acc.push((fb, Zero, CpNsymRet, mark, Dir::Left));
    lemma_lookup_push(prev, (fb, Zero, CpNsymRet, mark, Dir::Left), qs, qy);
    let prev = acc;
    let acc = acc.push((fb, One, CpNsymRet, mark, Dir::Left));
    lemma_lookup_push(prev, (fb, One, CpNsymRet, mark, Dir::Left), qs, qy);
    assert(copy_symbol_bit_from(acc0, carry, s1, fh, fb, mark) == acc);
}

/// Looking up a rule after `copy_symbol_rules` adds its rules.
pub proof fn lemma_copy_symbol_rules_lookup(acc: Seq<Rule<State, Symbol>>, qs: State, qy: Symbol)
    ensures
        lookup_rules(copy_symbol_rules_from(acc), qs, qy) == copy_symbol_rules_delta(qs, qy, lookup_rules(acc, qs, qy)),
{
    let acc0 = acc;
    let prev = acc;
    let acc = copy_symbol_bit_from(prev, CpNsymC0, CpNsymC0S1, CpNsymC0Fh, CpNsymC0Fb, X);
    lemma_copy_symbol_bit_lookup(prev, CpNsymC0, CpNsymC0S1, CpNsymC0Fh, CpNsymC0Fb, X, qs, qy);
    let prev = acc;
    let acc = copy_symbol_bit_from(prev, CpNsymC1, CpNsymC1S1, CpNsymC1Fh, CpNsymC1Fb, Y);
    lemma_copy_symbol_bit_lookup(prev, CpNsymC1, CpNsymC1S1, CpNsymC1Fh, CpNsymC1Fb, Y, qs, qy);
    assert(copy_symbol_rules_from(acc0) == acc);
}

/// Looking up a rule after `copy_symbol_next_rules` adds its rules.
pub proof fn lemma_copy_symbol_next_rules_lookup(acc: Seq<Rule<State, Symbol>>, qs: State, qy: Symbol)
    ensures
        lookup_rules(copy_symbol_next_rules_from(acc), qs, qy) == copy_symbol_next_rules_delta(qs, qy, lookup_rules(acc, qs, qy)),
{
    let acc0 = acc;
    let prev = acc;
    let acc = acc + seek_star_rules(CpNsymRet, CpNsymFnext);
    lemma_lookup_seek_star(prev, CpNsymRet, CpNsymFnext, qs, qy);
    let fn_ = CpNsymFnext;
    let prev = acc;
    let acc = acc + scan_rules(fn_, seq![Zero, One], Dir::Right);
    lemma_lookup_scan(prev, fn_, seq![Zero, One], Dir::Right, qs, qy);
    let prev = acc;
    let acc = acc.push((fn_, Pipe, CpNsymFn2, Pipe, Dir::Right));
    lemma_lookup_push(prev, (fn_, Pipe, CpNsymFn2, Pipe, Dir::Right), qs, qy);
    let fn2 = CpNsymFn2;
    let prev = acc;
    let acc = acc + scan_rules(fn2, seq![Zero, One], Dir::Right);
    lemma_lookup_scan(prev, fn2, seq![Zero, One], Dir::Right, qs, qy);
    let prev = acc;
    let acc = acc.push((fn2, Pipe, CpNsymFn3, Pipe, Dir::Right));
    lemma_lookup_push(prev, (fn2, Pipe, CpNsymFn3, Pipe, Dir::Right), qs, qy);
    let fn3 = CpNsymFn3;
    let prev = acc;
    let acc = acc + scan_rules(fn3, seq![Zero, One], Dir::Right);
    lemma_lookup_scan(prev, fn3, seq![Zero, One], Dir::Right, qs, qy);
    let prev = acc;
    let acc = acc.push((fn3, Pipe, CpNsymFn4, Pipe, Dir::Right));
    lemma_lookup_push(prev, (fn3, Pipe, CpNsymFn4, Pipe, Dir::Right), qs, qy);
    let fn4 = CpNsymFn4;
    let prev = acc;
    let acc = acc + scan_rules(fn4, seq![X, Y], Dir::Right);
    lemma_lookup_scan(prev, fn4, seq![X, Y], Dir::Right, qs, qy);
    let prev = acc;
    let acc = acc.push((fn4, Zero, CpNsymC0, X, Dir::Right));
    lemma_lookup_push(prev, (fn4, Zero, CpNsymC0, X, Dir::Right), qs, qy);
    let prev = acc;
    let acc = acc.push((fn4, One, CpNsymC1, Y, Dir::Right));
    lemma_lookup_push(prev, (fn4, One, CpNsymC1, Y, Dir::Right), qs, qy);
    let prev = acc;
    let acc = acc.push((fn4, Pipe, CpNsymDone, Pipe, Dir::Left));
    lemma_lookup_push(prev, (fn4, Pipe, CpNsymDone, Pipe, Dir::Left), qs, qy);
    assert(copy_symbol_next_rules_from(acc0) == acc);
}

/// Looking up a rule after `copy_symbol_done_rules` adds its rules.
pub proof fn lemma_copy_symbol_done_rules_lookup(acc: Seq<Rule<State, Symbol>>, qs: State, qy: Symbol)
    ensures
        lookup_rules(copy_symbol_done_rules_from(acc), qs, qy) == copy_symbol_done_rules_delta(qs, qy, lookup_rules(acc, qs, qy)),
{
    let acc0 = acc;
    let d = CpNsymDone;
    let prev = acc;
    let acc = acc.push((d, X, d, Zero, Dir::Left));
    lemma_lookup_push(prev, (d, X, d, Zero, Dir::Left), qs, qy);
    let prev = acc;
    let acc = acc.push((d, Y, d, One, Dir::Left));
    lemma_lookup_push(prev, (d, Y, d, One, Dir::Left), qs, qy);
    let prev = acc;
    let acc = acc.push((d, Pipe, CpNsymRestNav, Pipe, Dir::Right));
    lemma_lookup_push(prev, (d, Pipe, CpNsymRestNav, Pipe, Dir::Right), qs, qy);
    let nav = CpNsymRestNav;
    let syms = (seq![Zero, One, X, Y, Pipe, L, R, Comma] + seq![Semi, Dot, Gt]);
    let prev = acc;
    let acc = acc + scan_rules(nav, syms, Dir::Right);
    lemma_lookup_scan(prev, nav, syms, Dir::Right, qs, qy);
    let prev = acc;
    let acc = acc.push((nav, Symbol::Hash, CpNsymRnS1, Symbol::Hash, Dir::Right));
    lemma_lookup_push(prev, (nav, Symbol::Hash, CpNsymRnS1, Symbol::Hash, Dir::Right), qs, qy);
    let s1 = CpNsymRnS1;
    let prev = acc;
    let acc = acc + scan_rules(s1, seq![Zero, One], Dir::Right);
    lemma_lookup_scan(prev, s1, seq![Zero, One], Dir::Right, qs, qy);
    let prev = acc;
    let acc = acc.push((s1, Symbol::Hash, CpNsymRnFh, Symbol::Hash, Dir::Right));
    lemma_lookup_push(prev, (s1, Symbol::Hash, CpNsymRnFh, Symbol::Hash, Dir::Right), qs, qy);
    let fh = CpNsymRnFh;
    let syms = (seq![Zero, One] + seq![Comma]);
    let prev = acc;
    let acc = acc + scan_rules(fh, syms, Dir::Right);
    lemma_lookup_scan(prev, fh, syms, Dir::Right, qs, qy);
    let prev = acc;
    let acc = acc.push((fh, Caret, CpNsymRnDo, Caret, Dir::Right));
    lemma_lookup_push(prev, (fh, Caret, CpNsymRnDo, Caret, Dir::Right), qs, qy);
    let rd = CpNsymRnDo;
    let prev = acc;
    let acc = acc.push((rd, X, rd, Zero, Dir::Right));
    lemma_lookup_push(prev, (rd, X, rd, Zero, Dir::Right), qs, qy);
    let prev = acc;
    let acc = acc.push((rd, Y, rd, One, Dir::Right));
    lemma_lookup_push(prev, (rd, Y, rd, One, Dir::Right), qs, qy);
    let prev = acc;
    let acc = acc + scan_rules(rd, seq![Zero, One], Dir::Right);
    lemma_lookup_scan(prev, rd, seq![Zero, One], Dir::Right, qs, qy);
    let prev = acc;
    let acc = acc.push((rd, Comma, ReadDir, Comma, Dir::Left));
    lemma_lookup_push(prev, (rd, Comma, ReadDir, Comma, Dir::Left), qs, qy);
    let prev = acc;
    let acc = acc.push((rd, Blank, ReadDir, Blank, Dir::Left));
    lemma_lookup_push(prev, (rd, Blank, ReadDir, Blank, Dir::Left), qs, qy);
    assert(copy_symbol_done_rules_from(acc0) == acc);
}

/// Looking up a rule after `read_direction_rules` adds its rules.
pub proof fn lemma_read_direction_rules_lookup(acc: Seq<Rule<State, Symbol>>, qs: State, qy: Symbol)
    ensures
        lookup_rules(read_direction_rules_from(acc), qs, qy) == read_direction_rules_delta(qs, qy, lookup_rules(acc, qs, qy)),
{
    let acc0 = acc;
    let prev = acc;
    let acc = acc + seek_star_rules(ReadDir, RdSkipToDir);
    lemma_lookup_seek_star(prev, ReadDir, RdSkipToDir, qs, qy);
    let sk = RdSkipToDir;
    let prev = acc;
    let acc = acc + scan_rules(sk, seq![Zero, One], Dir::Right);
    lemma_lookup_scan(prev, sk, seq![Zero, One], Dir::Right, qs, qy);
    let prev = acc;
    let acc = acc.push((sk, Pipe, RdSk2, Pipe, Dir::Right));
    lemma_lookup_push(prev, (sk, Pipe, RdSk2, Pipe, Dir::Right), qs, qy);
    let sk2 = RdSk2;
    let prev = acc;
    let acc = acc + scan_rules(sk2, seq![Zero, One], Dir::Right);
    lemma_lookup_scan(prev, sk2, seq![Zero, One], Dir::Right, qs, qy);
    let prev = acc;
    let acc = acc.push((sk2, Pipe, RdSk3, Pipe, Dir::Right));
    lemma_lookup_push(prev, (sk2, Pipe, RdSk3, Pipe, Dir::Right), qs, qy);
    let sk3 = RdSk3;
    let prev = acc;
    let acc = acc + scan_rules(sk3, seq![Zero, One], Dir::Right);
    lemma_lookup_scan(prev, sk3, seq![Zero, One], Dir::Right, qs, qy);
    let prev = acc;
    let acc = acc.push((sk3, Pipe, RdSk4, Pipe, Dir::Right));
    lemma_lookup_push(prev, (sk3, Pipe, RdSk4, Pipe, Dir::Right), qs, qy);
    let sk4 = RdSk4;
    let prev = acc;
    let acc = acc + scan_rules(sk4, seq![Zero, One], Dir::Right);
    lemma_lookup_scan(prev, sk4, seq![Zero, One], Dir::Right, qs, qy);
    let prev = acc;
    let acc = acc.push((sk4, Pipe, RdRead, Pipe, Dir::Right));
    lemma_lookup_push(prev, (sk4, Pipe, RdRead, Pipe, Dir::Right), qs, qy);
    let prev = acc;
    let acc = acc.push((RdRead, L, MoveLeft, L, Dir::Left));
    lemma_lookup_push(prev, (RdRead, L, MoveLeft, L, Dir::Left), qs, qy);
    let prev = acc;
    let acc = acc.push((RdRead, R, MoveRight, R, Dir::Left));
    lemma_lookup_push(prev, (RdRead, R, MoveRight, R, Dir::Left), qs, qy);
    assert(read_direction_rules_from(acc0) == acc);
}

/// Looking up a rule after `move_right_rules` adds its rules.
pub proof fn lemma_move_right_rules_lookup(acc: Seq<Rule<State, Symbol>>, qs: State, qy: Symbol)
    ensures
        lookup_rules(move_right_rules_from(acc), qs, qy) == move_right_rules_delta(qs, qy, lookup_rules(acc, qs, qy)),
{
    let acc0 = acc;
    let mr = MoveRight;
    let syms = (seq![Zero, One] + seq![Pipe, L, R, Comma]);
    let prev = acc;
    let acc = acc + scan_rules(mr, syms, Dir::Left);
    lemma_lookup_scan(prev, mr, syms, Dir::Left, qs, qy);
    let prev = acc;
    let acc = acc.push((mr, Star, MrNav, Dot, Dir::Right));
    lemma_lookup_push(prev, (mr, Star, MrNav, Dot, Dir::Right), qs, qy);
    let nav = MrNav;
    let syms = (seq![Zero, One, X, Y, Pipe, L, R, Comma] + seq![Semi, Dot, Gt]);
    let prev = acc;
    let acc = acc + scan_rules(nav, syms, Dir::Right);
    lemma_lookup_scan(prev, nav, syms, Dir::Right, qs, qy);
    let prev = acc;
    let acc = acc.push((nav, Symbol::Hash, MrS1, Symbol::Hash, Dir::Right));
    lemma_lookup_push(prev, (nav, Symbol::Hash, MrS1, Symbol::Hash, Dir::Right), qs, qy);
    let s1 = MrS1;
    let prev = acc;
    let acc = acc + scan_rules(s1, seq![Zero, One], Dir::Right);
    lemma_lookup_scan(prev, s1, seq![Zero, One], Dir::Right, qs, qy);
    let prev = acc;
    let acc = acc.push((s1, Symbol::Hash, MrFindHead, Symbol::Hash, Dir::Right));
    lemma_lookup_push(prev, (s1, Symbol::Hash, MrFindHead, Symbol::Hash, Dir::Right), qs, qy);
    let fh = MrFindHead;
    let syms = (seq![Zero, One] + seq![Comma]);
    let prev = acc;
    let acc = acc + scan_rules(fh, syms, Dir::Right);
    lemma_lookup_scan(prev, fh, syms, Dir::Right, qs, qy);
    let prev = acc;
    let acc = acc.push((fh, Caret, MrSkipCell, Gt, Dir::Right));
    lemma_lookup_push(prev, (fh, Caret, MrSkipCell, Gt, Dir::Right), qs, qy);
    let sc = MrSkipCell;
    let prev = acc;
    let acc = acc + scan_rules(sc, seq![Zero, One], Dir::Right);
    lemma_lookup_scan(prev, sc, seq![Zero, One], Dir::Right, qs, qy);
    let prev = acc;
    let acc = acc.push((sc, Comma, MrPlaceHead, Caret, Dir::Left));
    lemma_lookup_push(prev, (sc, Comma, MrPlaceHead, Caret, Dir::Left), qs, qy);
    let prev = acc;
    let acc = acc.push((sc, Blank, MrExtendInit, Blank, Dir::Left));
    lemma_lookup_push(prev, (sc, Blank, MrExtendInit, Blank, Dir::Left), qs, qy);
    let ph = MrPlaceHead;
    let prev = acc;
    let acc = acc + scan_rules(ph, seq![Zero, One], Dir::Left);
    lemma_lookup_scan(prev, ph, seq![Zero, One], Dir::Left, qs, qy);
    let prev = acc;
    let acc = acc.push((ph, Gt, DoneSeekHome, Comma, Dir::Left));
    lemma_lookup_push(prev, (ph, Gt, DoneSeekHome, Comma, Dir::Left), qs, qy);
    assert(move_right_rules_from(acc0) == acc);
}

/// Looking up a rule after `extend_tape_rules` adds its rules.
pub proof fn lemma_extend_tape_rules_lookup(acc: Seq<Rule<State, Symbol>>, qs: State, qy: Symbol)
    ensures
        lookup_rules(extend_tape_rules_from(acc), qs, qy) == extend_tape_rules_delta(qs, qy, lookup_rules(acc, qs, qy)),
{
    let acc0 = acc;
    let ei = MrExtendInit;
    let prev = acc;
    let acc = acc + scan_rules(ei, seq![Zero, One], Dir::Left);
    lemma_lookup_scan(prev, ei, seq![Zero, One], Dir::Left, qs, qy);
    let prev = acc;
    let acc = acc.push((ei, Gt, MrExtToBlank, Comma, Dir::Right));
    lemma_lookup_push(prev, (ei, Gt, MrExtToBlank, Comma, Dir::Right), qs, qy);
    let tb = MrExtToBlank;
    let prev = acc;
    let acc = acc + scan_rules(tb, seq![Zero, One], Dir::Right);
    lemma_lookup_scan(prev, tb, seq![Zero, One], Dir::Right, qs, qy);
    let prev = acc;
    let acc = acc.push((tb, Blank, MrExtWriteHead, Caret, Dir::Left));
    lemma_lookup_push(prev, (tb, Blank, MrExtWriteHead, Caret, Dir::Left), qs, qy);
    let prev = acc;
    let acc = acc + seek_home_rules(MrExtWriteHead, MrExtHome);
    lemma_lookup_seek_home(prev, MrExtWriteHead, MrExtHome, qs, qy);
    let eh = MrExtHome;
    let prev = acc;
    let acc = acc + scan_rules(eh, seq![Zero, One, Semi], Dir::Right);
    lemma_lookup_scan(prev, eh, seq![Zero, One, Semi], Dir::Right, qs, qy);
    let prev = acc;
    let acc = acc.push((eh, Symbol::Hash, MrExtReadBlank, Symbol::Hash, Dir::Right));
    lemma_lookup_push(prev, (eh, Symbol::Hash, MrExtReadBlank, Symbol::Hash, Dir::Right), qs, qy);
    let rb = MrExtReadBlank;
    let prev = acc;
    let acc = acc.push((rb, Zero, MrExtBc0, X, Dir::Right));
    lemma_lookup_push(prev, (rb, Zero, MrExtBc0, X, Dir::Right), qs, qy);
    let prev = acc;
    let acc = acc.push((rb, One, MrExtBc1, Y, Dir::Right));
    lemma_lookup_push(prev, (rb, One, MrExtBc1, Y, Dir::Right), qs, qy);
    let prev = acc;
    let acc = acc.push((rb, Symbol::Hash, MrExtRestBlank, Symbol::Hash, Dir::Left));
    lemma_lookup_push(prev, (rb, Symbol::Hash, MrExtRestBlank, Symbol::Hash, Dir::Left), qs, qy);
    assert(extend_tape_rules_from(acc0) == acc);
}

/// Looking up a rule after `carry_blank_bit` adds its rules.
pub proof fn lemma_carry_blank_bit_lookup(acc: Seq<Rule<State, Symbol>>, carry: State, c_sym: Symbol, all_between: Seq<Symbol>, qs: State, qy: Symbol)
    ensures
        lookup_rules(carry_blank_bit_from(acc, carry, c_sym, all_between), qs, qy) == carry_blank_bit_delta(carry, c_sym, all_between, qs, qy, lookup_rules(acc, qs, qy)),
{
    let acc0 = acc;
    let prev = acc;
    let acc = acc + scan_rules(carry, all_between, Dir::Right);
    lemma_lookup_scan(prev, carry, all_between, Dir::Right, qs, qy);
    let prev = acc;
    let acc = acc.push((carry, Blank, MrExtBcRet, c_sym, Dir::Left));
    lemma_lookup_push(prev, (carry, Blank, MrExtBcRet, c_sym, Dir::Left), qs, qy);
    assert(carry_blank_bit_from(acc0, carry, c_sym, all_between) == acc);
}

/// Looking up a rule after `extend_tape_carry_rules` adds its rules.
pub proof fn lemma_extend_tape_carry_rules_lookup(acc: Seq<Rule<State, Symbol>>, qs: State, qy: Symbol)
    ensures
        lookup_rules(extend_tape_carry_rules_from(acc), qs, qy) == extend_tape_carry_rules_delta(qs, qy, lookup_rules(acc, qs, qy)),
{
    let acc0 = acc;
    let all_between = seq![Zero, One, Symbol::Hash, Comma, Caret, Pipe, Semi, Dot, L, R, Star, Gt, ];
    let prev = acc;
    let acc = carry_blank_bit_from(prev, MrExtBc0, Zero, all_between);
    lemma_carry_blank_bit_lookup(prev, MrExtBc0, Zero, all_between, qs, qy);
    let prev = acc;
    let acc = carry_blank_bit_from(prev, MrExtBc1, One, all_between);
    lemma_carry_blank_bit_lookup(prev, MrExtBc1, One, all_between, qs, qy);
    let ret = MrExtBcRet;
    let prev = acc;
    let acc = acc + scan_rules(ret, all_between, Dir::Left);
    lemma_lookup_scan(prev, ret, all_between, Dir::Left, qs, qy);
    let prev = acc;
    let acc = acc.push((ret, X, MrExtBcNext, X, Dir::Right));
    lemma_lookup_push(prev, (ret, X, MrExtBcNext, X, Dir::Right), qs, qy);
    let prev = acc;
    let acc = acc.push((ret, Y, MrExtBcNext, Y, Dir::Right));
    lemma_lookup_push(prev, (ret, Y, MrExtBcNext, Y, Dir::Right), qs, qy);
    assert(extend_tape_carry_rules_from(acc0) == acc);
}

/// Looking up a rule after `extend_tape_done_rules` adds its rules.
pub proof fn lemma_extend_tape_done_rules_lookup(acc: Seq<Rule<State, Symbol>>, qs: State, qy: Symbol)
    ensures
        lookup_rules(extend_tape_done_rules_from(acc), qs, qy) == extend_tape_done_rules_delta(qs, qy, lookup_rules(acc, qs, qy)),
{
    let acc0 = acc;
    let next = MrExtBcNext;
    let prev = acc;
    let acc = acc + scan_rules(next, seq![X, Y], Dir::Right);
    lemma_lookup_scan(prev, next, seq![X, Y], Dir::Right, qs, qy);
    let prev = acc;
    let acc = acc.push((next, Zero, MrExtBc0, X, Dir::Right));
    lemma_lookup_push(prev, (next, Zero, MrExtBc0, X, Dir::Right), qs, qy);
    let prev = acc;
    let acc = acc.push((next, One, MrExtBc1, Y, Dir::Right));
    lemma_lookup_push(prev, (next, One, MrExtBc1, Y, Dir::Right), qs, qy);
    let prev = acc;
    let acc = acc.push((next, Symbol::Hash, MrExtRestBlank, Symbol::Hash, Dir::Left));
    lemma_lookup_push(prev, (next, Symbol::Hash, MrExtRestBlank, Symbol::Hash, Dir::Left), qs, qy);
    let rb = MrExtRestBlank;
    let prev = acc;
    let acc = acc.push((rb, X, rb, Zero, Dir::Left));
    lemma_lookup_push(prev, (rb, X, rb, Zero, Dir::Left), qs, qy);
    let prev = acc;
    let acc = acc.push((rb, Y, rb, One, Dir::Left));
    lemma_lookup_push(prev, (rb, Y, rb, One, Dir::Left), qs, qy);
    let prev = acc;
    let acc = acc + scan_rules(rb, seq![Zero, One], Dir::Left);
    lemma_lookup_scan(prev, rb, seq![Zero, One], Dir::Left, qs, qy);
    let prev = acc;
    let acc = acc.push((rb, Symbol::Hash, MrExtNavToHead, Symbol::Hash, Dir::Right));
    lemma_lookup_push(prev, (rb, Symbol::Hash, MrExtNavToHead, Symbol::Hash, Dir::Right), qs, qy);
    let nth = MrExtNavToHead;
    let syms = (seq![Zero, One] + seq![Symbol::Hash, Comma, Pipe, Semi, Dot, L, R, Star, Gt]);
    let prev = acc;
    let acc = acc + scan_rules(nth, syms, Dir::Right);
    lemma_lookup_scan(prev, nth, syms, Dir::Right, qs, qy);
    let prev = acc;
    let acc = acc.push((nth, Caret, DoneSeekHome, Caret, Dir::Left));
    lemma_lookup_push(prev, (nth, Caret, DoneSeekHome, Caret, Dir::Left), qs, qy);
    assert(extend_tape_done_rules_from(acc0) == acc);
}

/// Looking up a rule after `move_left_rules` adds its rules.
pub proof fn lemma_move_left_rules_lookup(acc: Seq<Rule<State, Symbol>>, qs: State, qy: Symbol)
    ensures
        lookup_rules(move_left_rules_from(acc), qs, qy) == move_left_rules_delta(qs, qy, lookup_rules(acc, qs, qy)),
{
    let acc0 = acc;
    let ml = MoveLeft;
    let syms = (seq![Zero, One] + seq![Pipe, L, R, Comma]);
    let prev = acc;
    let acc = acc + scan_rules(ml, syms, Dir::Left);
    lemma_lookup_scan(prev, ml, syms, Dir::Left, qs, qy);
    let prev = acc;
    let acc = acc.push((ml, Star, MlNav, Dot, Dir::Right));
    lemma_lookup_push(prev, (ml, Star, MlNav, Dot, Dir::Right), qs, qy);
    let nav = MlNav;
    let syms = (seq![Zero, One, X, Y, Pipe, L, R, Comma] + seq![Semi, Dot, Gt]);
    let prev = acc;
    let acc = acc + scan_rules(nav, syms, Dir::Right);
    lemma_lookup_scan(prev, nav, syms, Dir::Right, qs, qy);
    let prev = acc;
    let acc = acc.push((nav, Symbol::Hash, MlS1, Symbol::Hash, Dir::Right));
    lemma_lookup_push(prev, (nav, Symbol::Hash, MlS1, Symbol::Hash, Dir::Right), qs, qy);
    let s1 = MlS1;
    let prev = acc;
    let acc = acc + scan_rules(s1, seq![Zero, One], Dir::Right);
    lemma_lookup_scan(prev, s1, seq![Zero, One], Dir::Right, qs, qy);
    let prev = acc;
    let acc = acc.push((s1, Symbol::Hash, MlFindHead, Symbol::Hash, Dir::Right));
    lemma_lookup_push(prev, (s1, Symbol::Hash, MlFindHead, Symbol::Hash, Dir::Right), qs, qy);
    let fh = MlFindHead;
    let syms = (seq![Zero, One] + seq![Comma]);
    let prev = acc;
    let acc = acc + scan_rules(fh, syms, Dir::Right);
    lemma_lookup_scan(prev, fh, syms, Dir::Right, qs, qy);
    let prev = acc;
    let acc = acc.push((fh, Caret, MlMark, Gt, Dir::Left));
    lemma_lookup_push(prev, (fh, Caret, MlMark, Gt, Dir::Left), qs, qy);
    let mk = MlMark;
    let prev = acc;
    let acc = acc + scan_rules(mk, seq![Zero, One], Dir::Left);
    lemma_lookup_scan(prev, mk, seq![Zero, One], Dir::Left, qs, qy);
    let prev = acc;
    let acc = acc.push((mk, Comma, MlRestore, Caret, Dir::Right));
    lemma_lookup_push(prev, (mk, Comma, MlRestore, Caret, Dir::Right), qs, qy);
    let rs = MlRestore;
    let prev = acc;
    let acc = acc + scan_rules(rs, seq![Zero, One], Dir::Right);
    lemma_lookup_scan(prev, rs, seq![Zero, One], Dir::Right, qs, qy);
    let prev = acc;
    let acc = acc.push((rs, Gt, DoneSeekHome, Comma, Dir::Left));
    lemma_lookup_push(prev, (rs, Gt, DoneSeekHome, Comma, Dir::Left), qs, qy);
    assert(move_left_rules_from(acc0) == acc);
}

/// Looking up a rule after `restart_rules` adds its rules.
pub proof fn lemma_restart_rules_lookup(acc: Seq<Rule<State, Symbol>>, qs: State, qy: Symbol)
    ensures
        lookup_rules(restart_rules_from(acc), qs, qy) == restart_rules_delta(qs, qy, lookup_rules(acc, qs, qy)),
{
    let acc0 = acc;
    let prev = acc;
    let acc = acc + seek_home_rules(DoneSeekHome, Init);
    lemma_lookup_seek_home(prev, DoneSeekHome, Init, qs, qy);
    assert(restart_rules_from(acc0) == acc);
}

/// Looking up a rule after `check_accept_bit` adds its rules.
pub proof fn lemma_check_accept_bit_lookup(acc: Seq<Rule<State, Symbol>>, carry: State, sk1: State, sk2: State, find: State, qs: State, qy: Symbol)
    ensures
        lookup_rules(check_accept_bit_from(acc, carry, sk1, sk2, find), qs, qy) == check_accept_bit_delta(carry, sk1, sk2, find, qs, qy, lookup_rules(acc, qs, qy)),
{
    let acc0 = acc;
    let syms = (seq![Zero, One, X, Y] + seq![Semi]);
    let prev = acc;
    let acc = acc + scan_rules(carry, syms, Dir::Right);
    lemma_lookup_scan(prev, carry, syms, Dir::Right, qs, qy);
    let prev = acc;
    let acc = acc.push((carry, Symbol::Hash, sk1, Symbol::Hash, Dir::Right));
    lemma_lookup_push(prev, (carry, Symbol::Hash, sk1, Symbol::Hash, Dir::Right), qs, qy);
    let prev = acc;
    let acc = acc + scan_rules(sk1, seq![Zero, One], Dir::Right);
    lemma_lookup_scan(prev, sk1, seq![Zero, One], Dir::Right, qs, qy);
    let prev = acc;
    let acc = acc.push((sk1, Symbol::Hash, sk2, Symbol::Hash, Dir::Right));
    lemma_lookup_push(prev, (sk1, Symbol::Hash, sk2, Symbol::Hash, Dir::Right), qs, qy);
    let prev = acc;
    let acc = acc + scan_rules(sk2, seq![Zero, One, X, Y, Pipe, L, R, Semi, Dot, Star, Comma, Gt], Dir::Right);
    lemma_lookup_scan(prev, sk2, seq![Zero, One, X, Y, Pipe, L, R, Semi, Dot, Star, Comma, Gt], Dir::Right, qs, qy);
    let prev = acc;
    let acc = acc.push((sk2, Symbol::Hash, find, Symbol::Hash, Dir::Right));
    lemma_lookup_push(prev, (sk2, Symbol::Hash, find, Symbol::Hash, Dir::Right), qs, qy);
    let prev = acc;
    let acc = acc + scan_rules(find, seq![X, Y], Dir::Right);
    lemma_lookup_scan(prev, find, seq![X, Y], Dir::Right, qs, qy);
    let acc = if carry == ChkAccC0 {
        let prev = acc;
        let acc = acc.push((find, Zero, ChkAccOk, X, Dir::Left));
        lemma_lookup_push(prev, (find, Zero, ChkAccOk, X, Dir::Left), qs, qy);
        let prev = acc;
        let acc = acc.push((find, One, ChkAccFailBit, Y, Dir::Left));
        lemma_lookup_push(prev, (find, One, ChkAccFailBit, Y, Dir::Left), qs, qy);
        acc
    } else {
        let prev = acc;
        let acc = acc.push((find, One, ChkAccOk, Y, Dir::Left));
        lemma_lookup_push(prev, (find, One, ChkAccOk, Y, Dir::Left), qs, qy);
        let prev = acc;
        let acc = acc.push((find, Zero, ChkAccFailBit, X, Dir::Left));
        lemma_lookup_push(prev, (find, Zero, ChkAccFailBit, X, Dir::Left), qs, qy);
        acc
    };
    assert(check_accept_bit_from(acc0, carry, sk1, sk2, find) == acc);
}

/// Looking up a rule after `check_accept_rules` adds its rules.
pub proof fn lemma_check_accept_rules_lookup(acc: Seq<Rule<State, Symbol>>, qs: State, qy: Symbol)
    ensures
        lookup_rules(check_accept_rules_from(acc), qs, qy) == check_accept_rules_delta(qs, qy, lookup_rules(acc, qs, qy)),
{
    let acc0 = acc;
    let ci = ChkAccInit;
    let prev = acc;
    let acc = acc.push((ci, Symbol::Hash, RejFinalHome, Symbol::Hash, Dir::Left));
    lemma_lookup_push(prev, (ci, Symbol::Hash, RejFinalHome, Symbol::Hash, Dir::Left), qs, qy);
    let prev = acc;
    let acc = acc.push((ci, Zero, ChkAccC0, X, Dir::Right));
    lemma_lookup_push(prev, (ci, Zero, ChkAccC0, X, Dir::Right), qs, qy);
    let prev = acc;
    let acc = acc.push((ci, One, ChkAccC1, Y, Dir::Right));
    lemma_lookup_push(prev, (ci, One, ChkAccC1, Y, Dir::Right), qs, qy);
    let prev = acc;
    let acc = check_accept_bit_from(prev, ChkAccC0, ChkAccC0Sk1, ChkAccC0Sk2, ChkAccC0Find);
    lemma_check_accept_bit_lookup(prev, ChkAccC0, ChkAccC0Sk1, ChkAccC0Sk2, ChkAccC0Find, qs, qy);
    let prev = acc;
    let acc = check_accept_bit_from(prev, ChkAccC1, ChkAccC1Sk1, ChkAccC1Sk2, ChkAccC1Find);
    lemma_check_accept_bit_lookup(prev, ChkAccC1, ChkAccC1Sk1, ChkAccC1Sk2, ChkAccC1Find, qs, qy);
    assert(check_accept_rules_from(acc0) == acc);
}

/// Looking up a rule after `accept_bit_matched_rules` adds its rules.
pub proof fn lemma_accept_bit_matched_rules_lookup(acc: Seq<Rule<State, Symbol>>, qs: State, qy: Symbol)
    ensures
        lookup_rules(accept_bit_matched_rules_from(acc), qs, qy) == accept_bit_matched_rules_delta(qs, qy, lookup_rules(acc, qs, qy)),
{
    let acc0 = acc;
    let ok = ChkAccOk;
    let prev = acc;
    let acc = acc + scan_rules(ok, seq![Zero, One, X, Y], Dir::Left);
    lemma_lookup_scan(prev, ok, seq![Zero, One, X, Y], Dir::Left, qs, qy);
    let prev = acc;
    let acc = acc.push((ok, Symbol::Hash, ChkAccOkSk1, Symbol::Hash, Dir::Left));
    lemma_lookup_push(prev, (ok, Symbol::Hash, ChkAccOkSk1, Symbol::Hash, Dir::Left), qs, qy);
    let sk1 = ChkAccOkSk1;
    let prev = acc;
    let acc = acc + scan_rules(sk1, seq![Zero, One, X, Y, Pipe, L, R, Semi, Dot, Star, Comma, Gt], Dir::Left);
    lemma_lookup_scan(prev, sk1, seq![Zero, One, X, Y, Pipe, L, R, Semi, Dot, Star, Comma, Gt], Dir::Left, qs, qy);
    let prev = acc;
    let acc = acc.push((sk1, Symbol::Hash, ChkAccOkSk2, Symbol::Hash, Dir::Left));
    lemma_lookup_push(prev, (sk1, Symbol::Hash, ChkAccOkSk2, Symbol::Hash, Dir::Left), qs, qy);
    let sk2 = ChkAccOkSk2;
    let prev = acc;
    let acc = acc + scan_rules(sk2, seq![Zero, One], Dir::Left);
    lemma_lookup_scan(prev, sk2, seq![Zero, One], Dir::Left, qs, qy);
    let prev = acc;
    let acc = acc.push((sk2, Symbol::Hash, ChkAccOkAcc, Symbol::Hash, Dir::Left));
    lemma_lookup_push(prev, (sk2, Symbol::Hash, ChkAccOkAcc, Symbol::Hash, Dir::Left), qs, qy);
    let oa = ChkAccOkAcc;
    let syms = (seq![Zero, One, X, Y] + seq![Semi]);
    let prev = acc;
    let acc = acc + scan_rules(oa, syms, Dir::Left);
    lemma_lookup_scan(prev, oa, syms, Dir::Left, qs, qy);
    let prev = acc;
    let acc = acc.push((oa, Dollar, ChkAccOkFind, Dollar, Dir::Right));
    lemma_lookup_push(prev, (oa, Dollar, ChkAccOkFind, Dollar, Dir::Right), qs, qy);
    let of_ = ChkAccOkFind;
    let syms = (seq![Zero, One] + seq![Semi]);
    let prev = acc;
    let acc = acc + scan_rules(of_, syms, Dir::Right);
    lemma_lookup_scan(prev, of_, syms, Dir::Right, qs, qy);
    let prev = acc;
    let acc = acc.push((of_, X, ChkAccOkSkip, X, Dir::Right));
    lemma_lookup_push(prev, (of_, X, ChkAccOkSkip, X, Dir::Right), qs, qy);
    let prev = acc;
    let acc = acc.push((of_, Y, ChkAccOkSkip, Y, Dir::Right));
    lemma_lookup_push(prev, (of_, Y, ChkAccOkSkip, Y, Dir::Right), qs, qy);
    let prev = acc;
    let acc = acc.push((of_, Symbol::Hash, AcceptSeekHome, Symbol::Hash, Dir::Left));
    lemma_lookup_push(prev, (of_, Symbol::Hash, AcceptSeekHome, Symbol::Hash, Dir::Left), qs, qy);
    let skip = ChkAccOkSkip;
    let prev = acc;
    let acc = acc + scan_rules(skip, seq![X, Y], Dir::Right);
    lemma_lookup_scan(prev, skip, seq![X, Y], Dir::Right, qs, qy);
    let prev = acc;
    let acc = acc.push((skip, Zero, ChkAccC0, X, Dir::Right));
    lemma_lookup_push(prev, (skip, Zero, ChkAccC0, X, Dir::Right), qs, qy);
    let prev = acc;
    let acc = acc.push((skip, One, ChkAccC1, Y, Dir::Right));
    lemma_lookup_push(prev, (skip, One, ChkAccC1, Y, Dir::Right), qs, qy);
    let prev = acc;
    let acc = acc.push((skip, Semi, AcceptSeekHome, Semi, Dir::Left));
    lemma_lookup_push(prev, (skip, Semi, AcceptSeekHome, Semi, Dir::Left), qs, qy);
    let prev = acc;
    let acc = acc.push((skip, Symbol::Hash, AcceptSeekHome, Symbol::Hash, Dir::Left));
    lemma_lookup_push(prev, (skip, Symbol::Hash, AcceptSeekHome, Symbol::Hash, Dir::Left), qs, qy);
    assert(accept_bit_matched_rules_from(acc0) == acc);
}

/// Looking up a rule after `accept_bit_mismatch_rules` adds its rules.
pub proof fn lemma_accept_bit_mismatch_rules_lookup(acc: Seq<Rule<State, Symbol>>, qs: State, qy: Symbol)
    ensures
        lookup_rules(accept_bit_mismatch_rules_from(acc), qs, qy) == accept_bit_mismatch_rules_delta(qs, qy, lookup_rules(acc, qs, qy)),
{
    let acc0 = acc;
    let fb = ChkAccFailBit;
    let prev = acc;
    let acc = acc + scan_rules(fb, seq![Zero, One, X, Y], Dir::Left);
    lemma_lookup_scan(prev, fb, seq![Zero, One, X, Y], Dir::Left, qs, qy);
    let prev = acc;
    let acc = acc.push((fb, Symbol::Hash, ChkAccRestState, Symbol::Hash, Dir::Right));
    lemma_lookup_push(prev, (fb, Symbol::Hash, ChkAccRestState, Symbol::Hash, Dir::Right), qs, qy);
    let rs = ChkAccRestState;
    let prev = acc;
    let acc = acc.push((rs, X, rs, Zero, Dir::Right));
    lemma_lookup_push(prev, (rs, X, rs, Zero, Dir::Right), qs, qy);
    let prev = acc;
    let acc = acc.push((rs, Y, rs, One, Dir::Right));
    lemma_lookup_push(prev, (rs, Y, rs, One, Dir::Right), qs, qy);
    let prev = acc;
    let acc = acc + scan_rules(rs, seq![Zero, One], Dir::Right);
    lemma_lookup_scan(prev, rs, seq![Zero, One], Dir::Right, qs, qy);
    let prev = acc;
    let acc = acc.push((rs, Symbol::Hash, ChkAccBack2acc, Symbol::Hash, Dir::Left));
    lemma_lookup_push(prev, (rs, Symbol::Hash, ChkAccBack2acc, Symbol::Hash, Dir::Left), qs, qy);
    let ba = ChkAccBack2acc;
    let prev = acc;
    let acc = acc + scan_rules(ba, seq![Zero, One], Dir::Left);
    lemma_lookup_scan(prev, ba, seq![Zero, One], Dir::Left, qs, qy);
    let prev = acc;
    let acc = acc.push((ba, Symbol::Hash, ChkAccIntoAcc, Symbol::Hash, Dir::Left));
    lemma_lookup_push(prev, (ba, Symbol::Hash, ChkAccIntoAcc, Symbol::Hash, Dir::Left), qs, qy);
    let ia = ChkAccIntoAcc;
    let syms = (seq![Zero, One, X, Y] + seq![Semi, Symbol::Hash, Pipe, Dot, L, R, Comma, Star, Gt]);
    let prev = acc;
    let acc = acc + scan_rules(ia, syms, Dir::Left);
    lemma_lookup_scan(prev, ia, syms, Dir::Left, qs, qy);
    let prev = acc;
    let acc = acc.push((ia, Dollar, ChkAccDoRest, Dollar, Dir::Right));
    lemma_lookup_push(prev, (ia, Dollar, ChkAccDoRest, Dollar, Dir::Right), qs, qy);
    assert(accept_bit_mismatch_rules_from(acc0) == acc);
}

/// Looking up a rule after `accept_next_entry_rules` adds its rules.
pub proof fn lemma_accept_next_entry_rules_lookup(acc: Seq<Rule<State, Symbol>>, qs: State, qy: Symbol)
    ensures
        lookup_rules(accept_next_entry_rules_from(acc), qs, qy) == accept_next_entry_rules_delta(qs, qy, lookup_rules(acc, qs, qy)),
{
    let acc0 = acc;
    let dr = ChkAccDoRest;
    let prev = acc;
    let acc = acc + scan_rules(dr, seq![Zero, One], Dir::Right);
    lemma_lookup_scan(prev, dr, seq![Zero, One], Dir::Right, qs, qy);
    let prev = acc;
    let acc = acc.push((dr, X, ChkAccDoRest2, Zero, Dir::Right));
    lemma_lookup_push(prev, (dr, X, ChkAccDoRest2, Zero, Dir::Right), qs, qy);
    let prev = acc;
    let acc = acc.push((dr, Y, ChkAccDoRest2, One, Dir::Right));
    lemma_lookup_push(prev, (dr, Y, ChkAccDoRest2, One, Dir::Right), qs, qy);
    let prev = acc;
    let acc = acc.push((dr, Semi, ChkAccNextEntry, Semi, Dir::Right));
    lemma_lookup_push(prev, (dr, Semi, ChkAccNextEntry, Semi, Dir::Right), qs, qy);
    let prev = acc;
    let acc = acc.push((dr, Symbol::Hash, RejectSeekHome, Symbol::Hash, Dir::Left));
    lemma_lookup_push(prev, (dr, Symbol::Hash, RejectSeekHome, Symbol::Hash, Dir::Left), qs, qy);
    let dr2 = ChkAccDoRest2;
    let prev = acc;
    let acc = acc.push((dr2, X, dr2, Zero, Dir::Right));
    lemma_lookup_push(prev, (dr2, X, dr2, Zero, Dir::Right), qs, qy);
    let prev = acc;
    let acc = acc.push((dr2, Y, dr2, One, Dir::Right));
    lemma_lookup_push(prev, (dr2, Y, dr2, One, Dir::Right), qs, qy);
    let prev = acc;
    let acc = acc + scan_rules(dr2, seq![Zero, One], Dir::Right);
    lemma_lookup_scan(prev, dr2, seq![Zero, One], Dir::Right, qs, qy);
    let prev = acc;
    let acc = acc.push((dr2, Semi, ChkAccNextEntry, Semi, Dir::Right));
    lemma_lookup_push(prev, (dr2, Semi, ChkAccNextEntry, Semi, Dir::Right), qs, qy);
    let prev = acc;
    let acc = acc.push((dr2, Symbol::Hash, RejectSeekHome, Symbol::Hash, Dir::Left));
    lemma_lookup_push(prev, (dr2, Symbol::Hash, RejectSeekHome, Symbol::Hash, Dir::Left), qs, qy);
    let ne = ChkAccNextEntry;
    let prev = acc;
    let acc = acc.push((ne, Zero, ChkAccC0, X, Dir::Right));
    lemma_lookup_push(prev, (ne, Zero, ChkAccC0, X, Dir::Right), qs, qy);
    let prev = acc;
    let acc = acc.push((ne, One, ChkAccC1, Y, Dir::Right));
    lemma_lookup_push(prev, (ne, One, ChkAccC1, Y, Dir::Right), qs, qy);
    let prev = acc;
    let acc = acc.push((ne, Symbol::Hash, RejectSeekHome, Symbol::Hash, Dir::Left));
    lemma_lookup_push(prev, (ne, Symbol::Hash, RejectSeekHome, Symbol::Hash, Dir::Left), qs, qy);
    assert(accept_next_entry_rules_from(acc0) == acc);
}

/// Looking up a rule after `accept_rules` adds its rules.
pub proof fn lemma_accept_rules_lookup(acc: Seq<Rule<State, Symbol>>, qs: State, qy: Symbol)
    ensures
        lookup_rules(accept_rules_from(acc), qs, qy) == accept_rules_delta(qs, qy, lookup_rules(acc, qs, qy)),
{
    let acc0 = acc;
    let ash = AcceptSeekHome;
    let syms = (seq![Zero, One, X, Y] + seq![Semi]);
    let prev = acc;
    let acc = acc + scan_rules(ash, syms, Dir::Left);
    lemma_lookup_scan(prev, ash, syms, Dir::Left, qs, qy);
    let prev = acc;
    let acc = acc.push((ash, Dollar, AccRestAcc, Dollar, Dir::Right));
    lemma_lookup_push(prev, (ash, Dollar, AccRestAcc, Dollar, Dir::Right), qs, qy);
    let ra = AccRestAcc;
    let prev = acc;
    let acc = acc.push((ra, X, ra, Zero, Dir::Right));
    lemma_lookup_push(prev, (ra, X, ra, Zero, Dir::Right), qs, qy);
    let prev = acc;
    let acc = acc.push((ra, Y, ra, One, Dir::Right));
    lemma_lookup_push(prev, (ra, Y, ra, One, Dir::Right), qs, qy);
    let syms = (seq![Zero, One] + seq![Semi]);
    let prev = acc;
    let acc = acc + scan_rules(ra, syms, Dir::Right);
    lemma_lookup_scan(prev, ra, syms, Dir::Right, qs, qy);
    let prev = acc;
    let acc = acc.push((ra, Symbol::Hash, AccRestSkip1, Symbol::Hash, Dir::Right));
    lemma_lookup_push(prev, (ra, Symbol::Hash, AccRestSkip1, Symbol::Hash, Dir::Right), qs, qy);
    let sk1 = AccRestSkip1;
    let prev = acc;
    let acc = acc + scan_rules(sk1, seq![Zero, One], Dir::Right);
    lemma_lookup_scan(prev, sk1, seq![Zero, One], Dir::Right, qs, qy);
    let prev = acc;
    let acc = acc.push((sk1, Symbol::Hash, AccRestSkip2, Symbol::Hash, Dir::Right));
    lemma_lookup_push(prev, (sk1, Symbol::Hash, AccRestSkip2, Symbol::Hash, Dir::Right), qs, qy);
    let sk2 = AccRestSkip2;
    let prev = acc;
    let acc = acc + scan_rules(sk2, seq![Zero, One, X, Y, Pipe, L, R, Semi, Dot, Star, Comma, Gt], Dir::Right);
    lemma_lookup_scan(prev, sk2, seq![Zero, One, X, Y, Pipe, L, R, Semi, Dot, Star, Comma, Gt], Dir::Right, qs, qy);
    let prev = acc;
    let acc = acc.push((sk2, Symbol::Hash, AccRestState, Symbol::Hash, Dir::Right));
    lemma_lookup_push(prev, (sk2, Symbol::Hash, AccRestState, Symbol::Hash, Dir::Right), qs, qy);
    let rs = AccRestState;
    let prev = acc;
    let acc = acc.push((rs, X, rs, Zero, Dir::Right));
    lemma_lookup_push(prev, (rs, X, rs, Zero, Dir::Right), qs, qy);
    let prev = acc;
    let acc = acc.push((rs, Y, rs, One, Dir::Right));
    lemma_lookup_push(prev, (rs, Y, rs, One, Dir::Right), qs, qy);
    let prev = acc;
    let acc = acc + scan_rules(rs, seq![Zero, One], Dir::Right);
    lemma_lookup_scan(prev, rs, seq![Zero, One], Dir::Right, qs, qy);
    let prev = acc;
    let acc = acc.push((rs, Symbol::Hash, AccFinalHome, Symbol::Hash, Dir::Left));
    lemma_lookup_push(prev, (rs, Symbol::Hash, AccFinalHome, Symbol::Hash, Dir::Left), qs, qy);
    let prev = acc;
    let acc = acc + seek_home_rules(AccFinalHome, Accept);
    lemma_lookup_seek_home(prev, AccFinalHome, Accept, qs, qy);
    assert(accept_rules_from(acc0) == acc);
}

/// Looking up a rule after `reject_rules` adds its rules.
pub proof fn lemma_reject_rules_lookup(acc: Seq<Rule<State, Symbol>>, qs: State, qy: Symbol)
    ensures
        lookup_rules(reject_rules_from(acc), qs, qy) == reject_rules_delta(qs, qy, lookup_rules(acc, qs, qy)),
{
    let acc0 = acc;
    let rsh = RejectSeekHome;
    let syms = (seq![Zero, One, X, Y] + seq![Semi]);
    let prev = acc;
    let acc = acc + scan_rules(rsh, syms, Dir::Left);
    lemma_lookup_scan(prev, rsh, syms, Dir::Left, qs, qy);
    let prev = acc;
    let acc = acc.push((rsh, Dollar, RejRestAcc, Dollar, Dir::Right));
    lemma_lookup_push(prev, (rsh, Dollar, RejRestAcc, Dollar, Dir::Right), qs, qy);
    let ra = RejRestAcc;
    let prev = acc;
    let acc = acc.push((ra, X, ra, Zero, Dir::Right));
    lemma_lookup_push(prev, (ra, X, ra, Zero, Dir::Right), qs, qy);
    let prev = acc;
    let acc = acc.push((ra, Y, ra, One, Dir::Right));
    lemma_lookup_push(prev, (ra, Y, ra, One, Dir::Right), qs, qy);
    let syms = (seq![Zero, One] + seq![Semi]);
    let prev = acc;
    let acc = acc + scan_rules(ra, syms, Dir::Right);
    lemma_lookup_scan(prev, ra, syms, Dir::Right, qs, qy);
    let prev = acc;
    let acc = acc.push((ra, Symbol::Hash, RejRestSkip1, Symbol::Hash, Dir::Right));
    lemma_lookup_push(prev, (ra, Symbol::Hash, RejRestSkip1, Symbol::Hash, Dir::Right), qs, qy);
    let sk1 = RejRestSkip1;
    let prev = acc;
    let acc = acc + scan_rules(sk1, seq![Zero, One], Dir::Right);
    lemma_lookup_scan(prev, sk1, seq![Zero, One], Dir::Right, qs, qy);
    let prev = acc;
    let acc = acc.push((sk1, Symbol::Hash, RejRestSkip2, Symbol::Hash, Dir::Right));
    lemma_lookup_push(prev, (sk1, Symbol::Hash, RejRestSkip2, Symbol::Hash, Dir::Right), qs, qy);
    let sk2 = RejRestSkip2;
    let prev = acc;
    let acc = acc + scan_rules(sk2, seq![Zero, One, X, Y, Pipe, L, R, Semi, Dot, Star, Comma, Gt], Dir::Right);
    lemma_lookup_scan(prev, sk2, seq![Zero, One, X, Y, Pipe, L, R, Semi, Dot, Star, Comma, Gt], Dir::Right, qs, qy);
    let prev = acc;
    let acc = acc.push((sk2, Symbol::Hash, RejRestState, Symbol::Hash, Dir::Right));
    lemma_lookup_push(prev, (sk2, Symbol::Hash, RejRestState, Symbol::Hash, Dir::Right), qs, qy);
    let rs = RejRestState;
    let prev = acc;
    let acc = acc.push((rs, X, rs, Zero, Dir::Right));
    lemma_lookup_push(prev, (rs, X, rs, Zero, Dir::Right), qs, qy);
    let prev = acc;
    let acc = acc.push((rs, Y, rs, One, Dir::Right));
    lemma_lookup_push(prev, (rs, Y, rs, One, Dir::Right), qs, qy);
    let prev = acc;
    let acc = acc + scan_rules(rs, seq![Zero, One], Dir::Right);
    lemma_lookup_scan(prev, rs, seq![Zero, One], Dir::Right, qs, qy);
    let prev = acc;
    let acc = acc.push((rs, Symbol::Hash, RejFinalHome, Symbol::Hash, Dir::Left));
    lemma_lookup_push(prev, (rs, Symbol::Hash, RejFinalHome, Symbol::Hash, Dir::Left), qs, qy);
    let prev = acc;
    let acc = acc + seek_home_rules(RejFinalHome, Reject);
    lemma_lookup_seek_home(prev, RejFinalHome, Reject, qs, qy);
    assert(reject_rules_from(acc0) == acc);
}

/// The universal machine's rule for a state and a symbol, by the
/// sections of its rules.
pub open spec fn utm_delta(s: State, y: Symbol) -> Option<(State, Symbol, Dir)> {
    let cur = None;
    let cur = init_rules_delta(s, y, cur);
    let cur = mark_rule_rules_delta(s, y, cur);
    let cur = compare_state_rules_delta(s, y, cur);
    let cur = state_bit_matched_rules_delta(s, y, cur);
    let cur = state_match_cleanup_rules_delta(s, y, cur);
    let cur = state_match_restore_rules_delta(s, y, cur);
    let cur = state_mismatch_rules_delta(s, y, cur);
    let cur = compare_symbol_rules_delta(s, y, cur);
    let cur = symbol_bit_matched_rules_delta(s, y, cur);
    let cur = symbol_mismatch_rules_delta(s, y, cur);
    let cur = symbol_mismatch_restore_rules_delta(s, y, cur);
    let cur = symbol_match_cleanup_rules_delta(s, y, cur);
    let cur = symbol_match_restore_rules_delta(s, y, cur);
    let cur = copy_state_rules_delta(s, y, cur);
    let cur = copy_state_next_rules_delta(s, y, cur);
    let cur = copy_state_done_rules_delta(s, y, cur);
    let cur = copy_symbol_nav_rules_delta(s, y, cur);
    let cur = copy_symbol_rules_delta(s, y, cur);
    let cur = copy_symbol_next_rules_delta(s, y, cur);
    let cur = copy_symbol_done_rules_delta(s, y, cur);
    let cur = read_direction_rules_delta(s, y, cur);
    let cur = move_right_rules_delta(s, y, cur);
    let cur = extend_tape_rules_delta(s, y, cur);
    let cur = extend_tape_carry_rules_delta(s, y, cur);
    let cur = extend_tape_done_rules_delta(s, y, cur);
    let cur = move_left_rules_delta(s, y, cur);
    let cur = restart_rules_delta(s, y, cur);
    let cur = check_accept_rules_delta(s, y, cur);
    let cur = accept_bit_matched_rules_delta(s, y, cur);
    let cur = accept_bit_mismatch_rules_delta(s, y, cur);
    let cur = accept_next_entry_rules_delta(s, y, cur);
    let cur = accept_rules_delta(s, y, cur);
    let cur = reject_rules_delta(s, y, cur);
    cur
}

/// The rule list of the universal machine gives each state and symbol
/// the rule of `utm_delta`.
pub proof fn lemma_utm_lookup(s: State, y: Symbol)
    ensures
        lookup_rules(utm_rule_list(), s, y) == utm_delta(s, y),
{
    reveal(utm_rule_list);
    let acc = Seq::<Rule<State, Symbol>>::empty();
    let prev = acc;
    let acc = init_rules_from(prev);
    lemma_init_rules_lookup(prev, s, y);
    let prev = acc;
    let acc = mark_rule_rules_from(prev);
    lemma_mark_rule_rules_lookup(prev, s, y);
    let prev = acc;
    let acc = compare_state_rules_from(prev);
    lemma_compare_state_rules_lookup(prev, s, y);
    let prev = acc;
    let acc = state_bit_matched_rules_from(prev);
    lemma_state_bit_matched_rules_lookup(prev, s, y);
    let prev = acc;
    let acc = state_match_cleanup_rules_from(prev);
    lemma_state_match_cleanup_rules_lookup(prev, s, y);
    let prev = acc;
    let acc = state_match_restore_rules_from(prev);
    lemma_state_match_restore_rules_lookup(prev, s, y);
    let prev = acc;
    let acc = state_mismatch_rules_from(prev);
    lemma_state_mismatch_rules_lookup(prev, s, y);
    let prev = acc;
    let acc = compare_symbol_rules_from(prev);
    lemma_compare_symbol_rules_lookup(prev, s, y);
    let prev = acc;
    let acc = symbol_bit_matched_rules_from(prev);
    lemma_symbol_bit_matched_rules_lookup(prev, s, y);
    let prev = acc;
    let acc = symbol_mismatch_rules_from(prev);
    lemma_symbol_mismatch_rules_lookup(prev, s, y);
    let prev = acc;
    let acc = symbol_mismatch_restore_rules_from(prev);
    lemma_symbol_mismatch_restore_rules_lookup(prev, s, y);
    let prev = acc;
    let acc = symbol_match_cleanup_rules_from(prev);
    lemma_symbol_match_cleanup_rules_lookup(prev, s, y);
    let prev = acc;
    let acc = symbol_match_restore_rules_from(prev);
    lemma_symbol_match_restore_rules_lookup(prev, s, y);
    let prev = acc;
    let acc = copy_state_rules_from(prev);
    lemma_copy_state_rules_lookup(prev, s, y);
    let prev = acc;
    let acc = copy_state_next_rules_from(prev);
    lemma_copy_state_next_rules_lookup(prev, s, y);
    let prev = acc;
    let acc = copy_state_done_rules_from(prev);
    lemma_copy_state_done_rules_lookup(prev, s, y);
    let prev = acc;
    let acc = copy_symbol_nav_rules_from(prev);
    lemma_copy_symbol_nav_rules_lookup(prev, s, y);
    let prev = acc;
    let acc = copy_symbol_rules_from(prev);
    lemma_copy_symbol_rules_lookup(prev, s, y);
    let prev = acc;
    let acc = copy_symbol_next_rules_from(prev);
    lemma_copy_symbol_next_rules_lookup(prev, s, y);
    let prev = acc;
    let acc = copy_symbol_done_rules_from(prev);
    lemma_copy_symbol_done_rules_lookup(prev, s, y);
    let prev = acc;
    let acc = read_direction_rules_from(prev);
    lemma_read_direction_rules_lookup(prev, s, y);
    let prev = acc;
    let acc = move_right_rules_from(prev);
    lemma_move_right_rules_lookup(prev, s, y);
    let prev = acc;
    let acc = extend_tape_rules_from(prev);
    lemma_extend_tape_rules_lookup(prev, s, y);
    let prev = acc;
    let acc = extend_tape_carry_rules_from(prev);
    lemma_extend_tape_carry_rules_lookup(prev, s, y);
    let prev = acc;
    let acc = extend_tape_done_rules_from(prev);
    lemma_extend_tape_done_rules_lookup(prev, s, y);
    let prev = acc;
    let acc = move_left_rules_from(prev);
    lemma_move_left_rules_lookup(prev, s, y);
    let prev = acc;
    let acc = restart_rules_from(prev);
    lemma_restart_rules_lookup(prev, s, y);
    let prev = acc;
    let acc = check_accept_rules_from(prev);
    lemma_check_accept_rules_lookup(prev, s, y);
    let prev = acc;
    let acc = accept_bit_matched_rules_from(prev);
    lemma_accept_bit_matched_rules_lookup(prev, s, y);
    let prev = acc;
    let acc = accept_bit_mismatch_rules_from(prev);
    lemma_accept_bit_mismatch_rules_lookup(prev, s, y);
    let prev = acc;
    let acc = accept_next_entry_rules_from(prev);
    lemma_accept_next_entry_rules_lookup(prev, s, y);
    let prev = acc;
    let acc = accept_rules_from(prev);
    lemma_accept_rules_lookup(prev, s, y);
    let prev = acc;
    let acc = reject_rules_from(prev);
    lemma_reject_rules_lookup(prev, s, y);
    assert(utm_rule_list() == acc);
}

} // verus!
