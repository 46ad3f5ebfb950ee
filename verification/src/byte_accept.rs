//! How the byte universal machine moves from one accepting state of the
//! tape to the next when the current state did not match it.
use vstd::prelude::*;

use crate::byte_machine::{
    accepts, lemma_table_of_len, run_bytes, RunResult, table_index, table_of, write_cell, State, Symbol, TuringMachineSpec,
    SYM_CARET, SYM_COMMA, SYM_D, SYM_DOLLAR, SYM_DOT, SYM_GT, SYM_HASH, SYM_L, SYM_ONE, SYM_PIPE, SYM_SEMI,
    SYM_STAR, SYM_X, SYM_Y, SYM_ZERO,
};
use crate::byte_utm::{
    block_of, built_before, lemma_table_entry_has_rule,
    REJECT, REJECT_SEEK_HOME, REJ_REST_ACC, REJ_REST_STATE,
    ACCEPT, ACC_FINAL_HOME, ACC_REST_ACC, ACC_REST_STATE,
    ACCEPT_SEEK_HOME, CHK_ACC_C0_FIND, CHK_ACC_C1_FIND, CHK_ACC_INIT, CHK_ACC_OK, CHK_ACC_OK_ACC, CHK_ACC_OK_FIND,
    CHK_ACC_OK_SKIP, REJ_FINAL_HOME,
    CHK_ACC_BACK2ACC, CHK_ACC_FAIL_BIT, CHK_ACC_INTO_ACC, CHK_ACC_REST_STATE,
    accept_bit_matched_rules_from, accept_bit_mismatch_rules_from, accept_next_entry_rules_from, accept_rules_from,
    check_accept_rules_from, compare_state_rules_from, compare_symbol_rules_from, copy_state_done_rules_from,
    copy_state_rules_from, copy_symbol_carry_rules_from, copy_symbol_done_rules_from, copy_symbol_nav_rules_from,
    extend_tape_blank_rules_from, extend_tape_rules_from, init_rules_from, is_utm_shape, keys_distinct,
    mark_rule_rules_from, move_left_rules_from, move_right_rules_from, read_direction_rules_from,
    reject_rules_from, restart_rules_from, state_bit_matched_rules_from, state_match_cleanup_rules_from,
    state_mismatch_rules_from, symbol_bit_matched_rules_from, symbol_match_cleanup_rules_from,
    symbol_match_restore_rules_from, symbol_mismatch_rules_from, utm_rule_list, ByteRule, CHK_ACC_C0, CHK_ACC_C1,
    CHK_ACC_DO_REST, CHK_ACC_DO_REST2, CHK_ACC_NEXT_ENTRY,
};
use crate::tm::Dir;

verus! {

/// A plain bit of a code on the tape.
pub open spec fn is_code_bit(y: Symbol) -> bool {
    y == Symbol(SYM_ZERO) || y == Symbol(SYM_ONE)
}

/// A bit with the mark of a comparison in progress: `x` for 0, `y` for 1.
pub open spec fn marked_bit(y: Symbol) -> Symbol {
    if y == Symbol(SYM_ZERO) {
        Symbol(SYM_X)
    } else {
        Symbol(SYM_Y)
    }
}

/// A symbol with its mark taken off: `x` is 0, `y` is 1, any other stays.
pub open spec fn unmarked_bit(y: Symbol) -> Symbol {
    if y == Symbol(SYM_X) {
        Symbol(SYM_ZERO)
    } else if y == Symbol(SYM_Y) {
        Symbol(SYM_ONE)
    } else {
        y
    }
}

/// The cells of `[a, b)` marked.
pub open spec fn mark_cells(t: spec_fn(int) -> Symbol, a: int, b: int) -> spec_fn(int) -> Symbol {
    |k: int| if a <= k < b { marked_bit(t(k)) } else { t(k) }
}

/// The cells of `[a, b)` unmarked.
pub open spec fn unmark_cells(t: spec_fn(int) -> Symbol, a: int, b: int) -> spec_fn(int) -> Symbol {
    |k: int| if a <= k < b { unmarked_bit(t(k)) } else { t(k) }
}

/// Where no two rules share a state and a symbol, the table holds each
/// rule under its state and symbol.
proof fn lemma_table_holds_rule(rules: Seq<ByteRule>, i: int)
    requires
        keys_distinct(rules),
        0 <= i < rules.len(),
    ensures
        table_of(rules)[table_index(rules[i].0, rules[i].1)] == Some((rules[i].2, rules[i].3, rules[i].4)),
    decreases rules.len(),
{
    let prev = rules.drop_last();
    lemma_table_of_len(prev);
    if i < rules.len() - 1 {
        assert forall|a: int, b: int| 0 <= a < b < prev.len() implies !((#[trigger] prev[a]).0
            == (#[trigger] prev[b]).0 && prev[a].1 == prev[b].1) by {
            assert(prev[a] == rules[a] && prev[b] == rules[b]);
        }
        lemma_table_holds_rule(prev, i);
        assert(prev[i] == rules[i]);
        let last = rules[rules.len() - 1];
        assert(!(rules[i].0 == last.0 && rules[i].1 == last.1));
        assert(table_index(rules[i].0, rules[i].1) != table_index(last.0, last.1));
    }
}

/// What the rules of the accepting-check restore come to, by position
/// after the rules before them.
proof fn lemma_next_entry_block(acc: Seq<ByteRule>)
    ensures
        ({
            let x = accept_next_entry_rules_from(acc);
            let n = acc.len() as int;
            let dr = State(CHK_ACC_DO_REST);
            let dr2 = State(CHK_ACC_DO_REST2);
            let ne = State(CHK_ACC_NEXT_ENTRY);
            &&& x.len() == n + 15
            &&& forall|i: int| 0 <= i < n ==> #[trigger] x[i] == acc[i]
            &&& x[n] == (dr, Symbol(SYM_ZERO), dr, Symbol(SYM_ZERO), Dir::Right)
            &&& x[n + 1] == (dr, Symbol(SYM_ONE), dr, Symbol(SYM_ONE), Dir::Right)
            &&& x[n + 2] == (dr, Symbol(SYM_X), dr2, Symbol(SYM_ZERO), Dir::Right)
            &&& x[n + 3] == (dr, Symbol(SYM_Y), dr2, Symbol(SYM_ONE), Dir::Right)
            &&& x[n + 4] == (dr, Symbol(SYM_SEMI), ne, Symbol(SYM_SEMI), Dir::Right)
            &&& x[n + 5] == (dr, Symbol(SYM_HASH), State(REJECT_SEEK_HOME), Symbol(SYM_HASH), Dir::Left)
            &&& x[n + 6] == (dr2, Symbol(SYM_X), dr2, Symbol(SYM_ZERO), Dir::Right)
            &&& x[n + 7] == (dr2, Symbol(SYM_Y), dr2, Symbol(SYM_ONE), Dir::Right)
            &&& x[n + 8] == (dr2, Symbol(SYM_ZERO), dr2, Symbol(SYM_ZERO), Dir::Right)
            &&& x[n + 9] == (dr2, Symbol(SYM_ONE), dr2, Symbol(SYM_ONE), Dir::Right)
            &&& x[n + 10] == (dr2, Symbol(SYM_SEMI), ne, Symbol(SYM_SEMI), Dir::Right)
            &&& x[n + 11] == (dr2, Symbol(SYM_HASH), State(REJECT_SEEK_HOME), Symbol(SYM_HASH), Dir::Left)
            &&& x[n + 12] == (ne, Symbol(SYM_ZERO), State(CHK_ACC_C0), Symbol(SYM_X), Dir::Right)
            &&& x[n + 13] == (ne, Symbol(SYM_ONE), State(CHK_ACC_C1), Symbol(SYM_Y), Dir::Right)
            &&& x[n + 14] == (ne, Symbol(SYM_HASH), State(REJECT_SEEK_HOME), Symbol(SYM_HASH), Dir::Left)
        }),
{
}

/// The accepting and rejecting blocks only add rules after the others.
proof fn lemma_last_blocks_keep(acc: Seq<ByteRule>)
    ensures
        reject_rules_from(accept_rules_from(acc)).len() >= acc.len(),
        forall|i: int| 0 <= i < acc.len() ==> #[trigger] reject_rules_from(accept_rules_from(acc))[i] == acc[i],
{
    let y = accept_rules_from(acc);
    assert(y.subrange(0, acc.len() as int) =~= acc);
    let z = reject_rules_from(y);
    assert(z.subrange(0, y.len() as int) =~= y);
    assert forall|i: int| 0 <= i < acc.len() implies #[trigger] z[i] == acc[i] by {
        assert(z.subrange(0, y.len() as int)[i] == z[i]);
        assert(y.subrange(0, acc.len() as int)[i] == y[i]);
    }
}

/// The rule list ends with the blocks that compare the state with the
/// accepting states, the restore block, then the accepting and rejecting blocks.
proof fn lemma_list_ends_with_next_entry_block()
    ensures
        exists|acc: Seq<ByteRule>|
            utm_rule_list() == reject_rules_from(
                accept_rules_from(
                    accept_next_entry_rules_from(
                        accept_bit_mismatch_rules_from(accept_bit_matched_rules_from(check_accept_rules_from(acc))),
                    ),
                ),
            ),
{
    reveal(utm_rule_list);
    let s = Seq::<ByteRule>::empty();
    let s = init_rules_from(s);
    let s = mark_rule_rules_from(s);
    let s = compare_state_rules_from(s);
    let s = state_bit_matched_rules_from(s);
    let s = state_match_cleanup_rules_from(s);
    let s = state_mismatch_rules_from(s);
    let s = compare_symbol_rules_from(s);
    let s = symbol_bit_matched_rules_from(s);
    let s = symbol_mismatch_rules_from(s);
    let s = symbol_match_cleanup_rules_from(s);
    let s = symbol_match_restore_rules_from(s);
    let s = copy_state_rules_from(s);
    let s = copy_state_done_rules_from(s);
    let s = copy_symbol_nav_rules_from(s);
    let s = copy_symbol_carry_rules_from(s);
    let s = copy_symbol_done_rules_from(s);
    let s = read_direction_rules_from(s);
    let s = move_right_rules_from(s);
    let s = extend_tape_rules_from(s);
    let s = extend_tape_blank_rules_from(s);
    let s = move_left_rules_from(s);
    let s = restart_rules_from(s);
    assert(utm_rule_list() == reject_rules_from(
        accept_rules_from(
            accept_next_entry_rules_from(
                accept_bit_mismatch_rules_from(accept_bit_matched_rules_from(check_accept_rules_from(s))),
            ),
        ),
    ));
}


/// The rules that, after an accepting state failed to match, restore its
/// marks and go on to the next accepting state, as the universal machine's
/// table holds them.
#[verifier::spinoff_prover]
#[verifier::rlimit(80)]
pub proof fn lemma_next_entry_table(u: &TuringMachineSpec)
    requires
        is_utm_shape(u),
    ensures
        ({
            let t = u.transitions@;
            let dr = State(CHK_ACC_DO_REST);
            let dr2 = State(CHK_ACC_DO_REST2);
            let ne = State(CHK_ACC_NEXT_ENTRY);
            &&& t[table_index(dr, Symbol(SYM_ZERO))] == Some((dr, Symbol(SYM_ZERO), Dir::Right))
            &&& t[table_index(dr, Symbol(SYM_ONE))] == Some((dr, Symbol(SYM_ONE), Dir::Right))
            &&& t[table_index(dr, Symbol(SYM_X))] == Some((dr2, Symbol(SYM_ZERO), Dir::Right))
            &&& t[table_index(dr, Symbol(SYM_Y))] == Some((dr2, Symbol(SYM_ONE), Dir::Right))
            &&& t[table_index(dr, Symbol(SYM_SEMI))] == Some((ne, Symbol(SYM_SEMI), Dir::Right))
            &&& t[table_index(dr2, Symbol(SYM_X))] == Some((dr2, Symbol(SYM_ZERO), Dir::Right))
            &&& t[table_index(dr2, Symbol(SYM_Y))] == Some((dr2, Symbol(SYM_ONE), Dir::Right))
            &&& t[table_index(dr2, Symbol(SYM_ZERO))] == Some((dr2, Symbol(SYM_ZERO), Dir::Right))
            &&& t[table_index(dr2, Symbol(SYM_ONE))] == Some((dr2, Symbol(SYM_ONE), Dir::Right))
            &&& t[table_index(dr2, Symbol(SYM_SEMI))] == Some((ne, Symbol(SYM_SEMI), Dir::Right))
            &&& t[table_index(dr, Symbol(SYM_HASH))] == Some((State(REJECT_SEEK_HOME), Symbol(SYM_HASH), Dir::Left))
            &&& t[table_index(dr2, Symbol(SYM_HASH))] == Some((State(REJECT_SEEK_HOME), Symbol(SYM_HASH), Dir::Left))
            &&& t[table_index(ne, Symbol(SYM_ZERO))] == Some((State(CHK_ACC_C0), Symbol(SYM_X), Dir::Right))
            &&& t[table_index(ne, Symbol(SYM_ONE))] == Some((State(CHK_ACC_C1), Symbol(SYM_Y), Dir::Right))
        }),
{
    lemma_list_ends_with_next_entry_block();
    let acc0 = choose|acc: Seq<ByteRule>|
        utm_rule_list() == reject_rules_from(
            accept_rules_from(
                accept_next_entry_rules_from(
                    accept_bit_mismatch_rules_from(accept_bit_matched_rules_from(check_accept_rules_from(acc))),
                ),
            ),
        );
    let acc = accept_bit_mismatch_rules_from(accept_bit_matched_rules_from(check_accept_rules_from(acc0)));
    let x = accept_next_entry_rules_from(acc);
    lemma_next_entry_block(acc);
    lemma_last_blocks_keep(x);
    let rules = utm_rule_list();
    let n = acc.len() as int;
    assert(rules[n] == x[n]);
    assert(rules[n + 1] == x[n + 1]);
    assert(rules[n + 2] == x[n + 2]);
    assert(rules[n + 3] == x[n + 3]);
    assert(rules[n + 4] == x[n + 4]);
    assert(rules[n + 6] == x[n + 6]);
    assert(rules[n + 7] == x[n + 7]);
    assert(rules[n + 8] == x[n + 8]);
    assert(rules[n + 9] == x[n + 9]);
    assert(rules[n + 10] == x[n + 10]);
    assert(rules[n + 12] == x[n + 12]);
    assert(rules[n + 13] == x[n + 13]);
    lemma_table_holds_rule(rules, n);
    lemma_table_holds_rule(rules, n + 1);
    lemma_table_holds_rule(rules, n + 2);
    lemma_table_holds_rule(rules, n + 3);
    lemma_table_holds_rule(rules, n + 4);
    lemma_table_holds_rule(rules, n + 6);
    lemma_table_holds_rule(rules, n + 7);
    lemma_table_holds_rule(rules, n + 8);
    lemma_table_holds_rule(rules, n + 9);
    lemma_table_holds_rule(rules, n + 10);
    lemma_table_holds_rule(rules, n + 12);
    lemma_table_holds_rule(rules, n + 13);
    assert(rules[n + 5] == x[n + 5]);
    assert(rules[n + 11] == x[n + 11]);
    lemma_table_holds_rule(rules, n + 5);
    lemma_table_holds_rule(rules, n + 11);
}

/// A state that moves right and unmarks what it reads crosses a stretch of
/// `n` cells in `n` steps, leaving them unmarked.
proof fn lemma_restoring_scan(
    u: &TuringMachineSpec,
    t: spec_fn(int) -> Symbol,
    p: int,
    n: nat,
    st: State,
    fuel: nat,
    done: int,
    limit: i64,
)
    requires
        forall|k: int|
            p <= k < p + n ==> u.transitions@[table_index(st, #[trigger] t(k))] == Some(
                (st, unmarked_bit(t(k)), Dir::Right),
            ),
    ensures
        run_bytes(u, t, p, st, fuel + n, done, limit) == run_bytes(
            u,
            unmark_cells(t, p, p + n),
            p + n,
            st,
            fuel,
            done + n,
            limit,
        ),
    decreases n,
{
    if n > 0 {
        let t2 = write_cell(t, p, unmarked_bit(t(p)));
        assert(run_bytes(u, t, p, st, fuel + n, done, limit) == run_bytes(
            u,
            t2,
            p + 1,
            st,
            (fuel + (n - 1)) as nat,
            done + 1,
            limit,
        ));
        assert forall|k: int| p + 1 <= k < p + 1 + (n - 1) implies u.transitions@[table_index(
            st,
            #[trigger] t2(k),
        )] == Some((st, unmarked_bit(t2(k)), Dir::Right)) by {
            assert(t2(k) == t(k));
        }
        lemma_restoring_scan(u, t2, p + 1, (n - 1) as nat, st, fuel, done + 1, limit);
        assert(unmark_cells(t2, p + 1, p + n) =~= unmark_cells(t, p, p + n));
    } else {
        assert(unmark_cells(t, p, p) =~= t);
    }
}


/// When the current state failed to match an accepting state on the tape,
/// whose code starts at `a` and is followed by `;` and a next accepting
/// state, the first `j` bits of the failed one marked by the comparison,
/// the universal machine restores that code, crosses the `;` and starts
/// comparing the next accepting state: `sb + 2` steps later it has marked
/// that state's first bit and looks for it in the current state. The tape
/// is then the unmarked tape with that one bit marked.
pub proof fn lemma_byte_failed_entry_moves_on(
    u: &TuringMachineSpec,
    t: spec_fn(int) -> Symbol,
    a: int,
    sb: nat,
    j: nat,
    fuel: nat,
    done: int,
    limit: i64,
)
    requires
        is_utm_shape(u),
        j <= sb,
        forall|k: int| a <= k < a + sb ==> is_code_bit(#[trigger] t(k)),
        t(a + sb) == Symbol(SYM_SEMI),
        is_code_bit(t(a + sb + 1)),
    ensures
        ({
            let b = t(a + sb + 1);
            let next = if b == Symbol(SYM_ZERO) {
                State(CHK_ACC_C0)
            } else {
                State(CHK_ACC_C1)
            };
            run_bytes(u, mark_cells(t, a, a + j), a, State(CHK_ACC_DO_REST), fuel + sb + 2, done, limit)
                == run_bytes(u, write_cell(t, a + sb + 1, marked_bit(b)), a + sb + 2, next, fuel, done + sb + 2, limit)
        }),
{
    lemma_next_entry_table(u);
    let dr = State(CHK_ACC_DO_REST);
    let dr2 = State(CHK_ACC_DO_REST2);
    let ne = State(CHK_ACC_NEXT_ENTRY);
    let tm = mark_cells(t, a, a + j);
    let b = t(a + sb + 1);
    let next = if b == Symbol(SYM_ZERO) {
        State(CHK_ACC_C0)
    } else {
        State(CHK_ACC_C1)
    };
    // Up to the `;`, the code of the failed state unmarked.
    let at_semi = if j == 0 {
        assert(tm =~= t);
        assert forall|k: int| a <= k < a + sb implies u.transitions@[table_index(dr, #[trigger] t(k))] == Some(
            (dr, unmarked_bit(t(k)), Dir::Right),
        ) by {}
        lemma_restoring_scan(u, t, a, sb, dr, fuel + 2, done, limit);
        assert(unmark_cells(t, a, a + sb) =~= t);
        dr
    } else {
        let t1 = write_cell(tm, a, t(a));
        assert(tm(a) == marked_bit(t(a)));
        assert(run_bytes(u, tm, a, dr, fuel + sb + 2, done, limit) == run_bytes(
            u,
            t1,
            a + 1,
            dr2,
            (fuel + 2 + (sb - 1)) as nat,
            done + 1,
            limit,
        ));
        assert forall|k: int| a + 1 <= k < a + 1 + (sb - 1) implies u.transitions@[table_index(
            dr2,
            #[trigger] t1(k),
        )] == Some((dr2, unmarked_bit(t1(k)), Dir::Right)) by {
            assert(is_code_bit(t(k)));
        }
        lemma_restoring_scan(u, t1, a + 1, (sb - 1) as nat, dr2, fuel + 2, done + 1, limit);
        assert forall|k: int| #[trigger] unmark_cells(t1, a + 1, a + sb)(k) == t(k) by {
            if a <= k < a + sb {
                assert(is_code_bit(t(k)));
            }
        }
        assert(unmark_cells(t1, a + 1, a + sb) =~= t);
        dr2
    };
    assert(run_bytes(u, tm, a, dr, fuel + sb + 2, done, limit) == run_bytes(
        u,
        t,
        a + sb,
        at_semi,
        fuel + 2,
        done + sb,
        limit,
    ));
    // Across the `;`, then the next state's first bit marked.
    assert(write_cell(t, a + sb, Symbol(SYM_SEMI)) =~= t);
    assert(run_bytes(u, t, a + sb, at_semi, fuel + 2, done + sb, limit) == run_bytes(
        u,
        t,
        a + sb + 1,
        ne,
        fuel + 1,
        done + sb + 1,
        limit,
    ));
    assert(run_bytes(u, t, a + sb + 1, ne, fuel + 1, done + sb + 1, limit) == run_bytes(
        u,
        write_cell(t, a + sb + 1, marked_bit(b)),
        a + sb + 2,
        next,
        fuel,
        done + sb + 2,
        limit,
    ));
}


/// What the rules for a failed accepting-state bit come to, by position
/// after the rules before them.
proof fn lemma_mismatch_block(acc: Seq<ByteRule>)
    ensures
        ({
            let x = accept_bit_mismatch_rules_from(acc);
            let n = acc.len() as int;
            let fb = State(CHK_ACC_FAIL_BIT);
            let rs = State(CHK_ACC_REST_STATE);
            let ba = State(CHK_ACC_BACK2ACC);
            let ia = State(CHK_ACC_INTO_ACC);
            &&& x.len() == n + 19
            &&& forall|i: int| 0 <= i < n ==> #[trigger] x[i] == acc[i]
            &&& x[n] == (fb, Symbol(SYM_ZERO), fb, Symbol(SYM_ZERO), Dir::Left)
            &&& x[n + 1] == (fb, Symbol(SYM_ONE), fb, Symbol(SYM_ONE), Dir::Left)
            &&& x[n + 2] == (fb, Symbol(SYM_X), fb, Symbol(SYM_X), Dir::Left)
            &&& x[n + 3] == (fb, Symbol(SYM_Y), fb, Symbol(SYM_Y), Dir::Left)
            &&& x[n + 4] == (fb, Symbol(SYM_HASH), rs, Symbol(SYM_HASH), Dir::Right)
            &&& x[n + 5] == (rs, Symbol(SYM_X), rs, Symbol(SYM_ZERO), Dir::Right)
            &&& x[n + 6] == (rs, Symbol(SYM_Y), rs, Symbol(SYM_ONE), Dir::Right)
            &&& x[n + 7] == (rs, Symbol(SYM_ZERO), rs, Symbol(SYM_ZERO), Dir::Right)
            &&& x[n + 8] == (rs, Symbol(SYM_ONE), rs, Symbol(SYM_ONE), Dir::Right)
            &&& x[n + 9] == (rs, Symbol(SYM_HASH), ba, Symbol(SYM_HASH), Dir::Left)
            &&& x[n + 10] == (ba, Symbol(SYM_ZERO), ba, Symbol(SYM_ZERO), Dir::Left)
            &&& x[n + 11] == (ba, Symbol(SYM_ONE), ba, Symbol(SYM_ONE), Dir::Left)
            &&& x[n + 12] == (ba, Symbol(SYM_HASH), ia, Symbol(SYM_HASH), Dir::Left)
            &&& x[n + 13] == (ia, Symbol(SYM_ZERO), ia, Symbol(SYM_ZERO), Dir::Left)
            &&& x[n + 14] == (ia, Symbol(SYM_ONE), ia, Symbol(SYM_ONE), Dir::Left)
            &&& x[n + 15] == (ia, Symbol(SYM_X), ia, Symbol(SYM_X), Dir::Left)
            &&& x[n + 16] == (ia, Symbol(SYM_Y), ia, Symbol(SYM_Y), Dir::Left)
            &&& x[n + 17] == (ia, Symbol(SYM_SEMI), ia, Symbol(SYM_SEMI), Dir::Left)
            &&& x[n + 18] == (ia, Symbol(SYM_HASH), State(CHK_ACC_DO_REST), Symbol(SYM_HASH), Dir::Right)
        }),
{
}

/// The rules that, after a bit of an accepting state differed from the
/// current state's, unmark the current state and go back to the start of
/// the accepting states, as the universal machine's table holds them.
#[verifier::spinoff_prover]
#[verifier::rlimit(80)]
pub proof fn lemma_mismatch_table(u: &TuringMachineSpec)
    requires
        is_utm_shape(u),
    ensures
        ({
            let t = u.transitions@;
            let fb = State(CHK_ACC_FAIL_BIT);
            let rs = State(CHK_ACC_REST_STATE);
            let ba = State(CHK_ACC_BACK2ACC);
            let ia = State(CHK_ACC_INTO_ACC);
            &&& t[table_index(fb, Symbol(SYM_ZERO))] == Some((fb, Symbol(SYM_ZERO), Dir::Left))
            &&& t[table_index(fb, Symbol(SYM_ONE))] == Some((fb, Symbol(SYM_ONE), Dir::Left))
            &&& t[table_index(fb, Symbol(SYM_X))] == Some((fb, Symbol(SYM_X), Dir::Left))
            &&& t[table_index(fb, Symbol(SYM_Y))] == Some((fb, Symbol(SYM_Y), Dir::Left))
            &&& t[table_index(fb, Symbol(SYM_HASH))] == Some((rs, Symbol(SYM_HASH), Dir::Right))
            &&& t[table_index(rs, Symbol(SYM_X))] == Some((rs, Symbol(SYM_ZERO), Dir::Right))
            &&& t[table_index(rs, Symbol(SYM_Y))] == Some((rs, Symbol(SYM_ONE), Dir::Right))
            &&& t[table_index(rs, Symbol(SYM_ZERO))] == Some((rs, Symbol(SYM_ZERO), Dir::Right))
            &&& t[table_index(rs, Symbol(SYM_ONE))] == Some((rs, Symbol(SYM_ONE), Dir::Right))
            &&& t[table_index(rs, Symbol(SYM_HASH))] == Some((ba, Symbol(SYM_HASH), Dir::Left))
            &&& t[table_index(ba, Symbol(SYM_ZERO))] == Some((ba, Symbol(SYM_ZERO), Dir::Left))
            &&& t[table_index(ba, Symbol(SYM_ONE))] == Some((ba, Symbol(SYM_ONE), Dir::Left))
            &&& t[table_index(ba, Symbol(SYM_HASH))] == Some((ia, Symbol(SYM_HASH), Dir::Left))
            &&& t[table_index(ia, Symbol(SYM_ZERO))] == Some((ia, Symbol(SYM_ZERO), Dir::Left))
            &&& t[table_index(ia, Symbol(SYM_ONE))] == Some((ia, Symbol(SYM_ONE), Dir::Left))
            &&& t[table_index(ia, Symbol(SYM_X))] == Some((ia, Symbol(SYM_X), Dir::Left))
            &&& t[table_index(ia, Symbol(SYM_Y))] == Some((ia, Symbol(SYM_Y), Dir::Left))
            &&& t[table_index(ia, Symbol(SYM_SEMI))] == Some((ia, Symbol(SYM_SEMI), Dir::Left))
            &&& t[table_index(ia, Symbol(SYM_HASH))] == Some((State(CHK_ACC_DO_REST), Symbol(SYM_HASH), Dir::Right))
        }),
{
    lemma_list_ends_with_next_entry_block();
    let acc1 = choose|acc: Seq<ByteRule>|
        utm_rule_list() == reject_rules_from(
            accept_rules_from(
                accept_next_entry_rules_from(
                    accept_bit_mismatch_rules_from(accept_bit_matched_rules_from(check_accept_rules_from(acc))),
                ),
            ),
        );
    let acc = accept_bit_matched_rules_from(check_accept_rules_from(acc1));
    let m = accept_bit_mismatch_rules_from(acc);
    let x = accept_next_entry_rules_from(m);
    lemma_mismatch_block(acc);
    lemma_next_entry_block(m);
    lemma_last_blocks_keep(x);
    let rules = utm_rule_list();
    let n = acc.len() as int;
    assert forall|k: int| 0 <= k < 19 implies #[trigger] rules[n + k] == m[n + k] by {
        assert(x[n + k] == m[n + k]);
    }
    assert forall|k: int| 0 <= k < 19 implies table_of(rules)[table_index(
        (#[trigger] rules[n + k]).0,
        rules[n + k].1,
    )] == Some((rules[n + k].2, rules[n + k].3, rules[n + k].4)) by {
        lemma_table_holds_rule(rules, n + k);
    }
    assert(rules[n + 0] == m[n + 0]);
    assert(rules[n + 1] == m[n + 1]);
    assert(rules[n + 2] == m[n + 2]);
    assert(rules[n + 3] == m[n + 3]);
    assert(rules[n + 4] == m[n + 4]);
    assert(rules[n + 5] == m[n + 5]);
    assert(rules[n + 6] == m[n + 6]);
    assert(rules[n + 7] == m[n + 7]);
    assert(rules[n + 8] == m[n + 8]);
    assert(rules[n + 9] == m[n + 9]);
    assert(rules[n + 10] == m[n + 10]);
    assert(rules[n + 11] == m[n + 11]);
    assert(rules[n + 12] == m[n + 12]);
    assert(rules[n + 13] == m[n + 13]);
    assert(rules[n + 14] == m[n + 14]);
    assert(rules[n + 15] == m[n + 15]);
    assert(rules[n + 16] == m[n + 16]);
    assert(rules[n + 17] == m[n + 17]);
    assert(rules[n + 18] == m[n + 18]);
}

/// A state that keeps what it reads and moves one way crosses a stretch
/// of `n` cells in `n` steps.
proof fn lemma_keeping_scan(
    u: &TuringMachineSpec,
    t: spec_fn(int) -> Symbol,
    p: int,
    n: nat,
    st: State,
    dir: Dir,
    fuel: nat,
    done: int,
    limit: i64,
)
    requires
        forall|k: int|
            (if dir == Dir::Right { p <= k < p + n } else { p - n < k <= p }) ==> u.transitions@[table_index(
                st,
                #[trigger] t(k),
            )] == Some((st, t(k), dir)),
    ensures
        run_bytes(u, t, p, st, fuel + n, done, limit) == run_bytes(
            u,
            t,
            if dir == Dir::Right { p + n } else { p - n },
            st,
            fuel,
            done + n,
            limit,
        ),
    decreases n,
{
    if n > 0 {
        assert(write_cell(t, p, t(p)) =~= t);
        let q = if dir == Dir::Right { p + 1 } else { p - 1 };
        assert(run_bytes(u, t, p, st, fuel + n, done, limit) == run_bytes(
            u,
            t,
            q,
            st,
            (fuel + (n - 1)) as nat,
            done + 1,
            limit,
        ));
        lemma_keeping_scan(u, t, q, (n - 1) as nat, st, dir, fuel, done + 1, limit);
    }
}


/// When bit `j` of the first accepting state on the tape (its code at
/// `[a, a + sb)`, after a `#` and before a `;` and a second accepting
/// state) differed from bit `j` of the current state (its code at
/// `[q + 1, q + 1 + sb)`, between the `#` that ends the accepting states
/// at `q` and another `#`), the first `j` bits of both marked, the
/// universal machine unmarks the current state, goes back to the
/// accepting states, restores the first one, crosses the `;` and starts
/// comparing the second one: it has marked its first bit and looks for it
/// in the current state, the tape otherwise unmarked.
pub proof fn lemma_byte_mismatch_moves_to_next_entry(
    u: &TuringMachineSpec,
    t: spec_fn(int) -> Symbol,
    a: int,
    q: int,
    sb: nat,
    j: nat,
    fuel: nat,
    done: int,
    limit: i64,
)
    requires
        is_utm_shape(u),
        1 <= j <= sb,
        a + sb + 1 < q,
        t(a - 1) == Symbol(SYM_HASH),
        forall|k: int| a <= k < a + sb ==> is_code_bit(#[trigger] t(k)),
        t(a + sb) == Symbol(SYM_SEMI),
        is_code_bit(t(a + sb + 1)),
        forall|k: int| a <= k < q ==> is_code_bit(#[trigger] t(k)) || t(k) == Symbol(SYM_SEMI),
        t(q) == Symbol(SYM_HASH),
        forall|k: int| q + 1 <= k < q + 1 + sb ==> is_code_bit(#[trigger] t(k)),
        t(q + 1 + sb) == Symbol(SYM_HASH),
    ensures
        ({
            let b = t(a + sb + 1);
            let next = if b == Symbol(SYM_ZERO) {
                State(CHK_ACC_C0)
            } else {
                State(CHK_ACC_C1)
            };
            let n = j + 3 * sb + (q - a) + 5;
            run_bytes(
                u,
                mark_cells(mark_cells(t, a, a + j), q + 1, q + 1 + j),
                q + j - 1,
                State(CHK_ACC_FAIL_BIT),
                (fuel + n) as nat,
                done,
                limit,
            ) == run_bytes(u, write_cell(t, a + sb + 1, marked_bit(b)), a + sb + 2, next, fuel, done + n, limit)
        }),
{
    assert(accept_check_layout(t, a, q, a, sb));
    let d = done + j + 2 * sb + (q - a) + 3;
    lemma_byte_mismatch_back_to_start(u, t, a, q, a, sb, j, fuel + sb + 2, done, limit);
    // Restore the first accepting state and start on the second.
    lemma_byte_failed_entry_moves_on(u, t, a, sb, j, fuel, d, limit);
}

/// What the rules of `check_accept_rules_from` come to, by position after the rules
/// before them.
proof fn lemma_check_block(acc: Seq<ByteRule>)
    ensures
        ({
            let x = check_accept_rules_from(acc);
            let n = acc.len() as int;
            &&& x.len() == n + 23
            &&& forall|i: int| 0 <= i < n ==> #[trigger] x[i] == acc[i]
            &&& x[n + 0] == (State(CHK_ACC_INIT), Symbol(SYM_HASH), State(REJ_FINAL_HOME), Symbol(SYM_HASH), Dir::Left)
            &&& x[n + 1] == (State(CHK_ACC_INIT), Symbol(SYM_ZERO), State(CHK_ACC_C0), Symbol(SYM_X), Dir::Right)
            &&& x[n + 2] == (State(CHK_ACC_INIT), Symbol(SYM_ONE), State(CHK_ACC_C1), Symbol(SYM_Y), Dir::Right)
            &&& x[n + 3] == (State(CHK_ACC_C0), Symbol(SYM_ZERO), State(CHK_ACC_C0), Symbol(SYM_ZERO), Dir::Right)
            &&& x[n + 4] == (State(CHK_ACC_C0), Symbol(SYM_ONE), State(CHK_ACC_C0), Symbol(SYM_ONE), Dir::Right)
            &&& x[n + 5] == (State(CHK_ACC_C0), Symbol(SYM_X), State(CHK_ACC_C0), Symbol(SYM_X), Dir::Right)
            &&& x[n + 6] == (State(CHK_ACC_C0), Symbol(SYM_Y), State(CHK_ACC_C0), Symbol(SYM_Y), Dir::Right)
            &&& x[n + 7] == (State(CHK_ACC_C0), Symbol(SYM_SEMI), State(CHK_ACC_C0), Symbol(SYM_SEMI), Dir::Right)
            &&& x[n + 8] == (State(CHK_ACC_C0), Symbol(SYM_HASH), State(CHK_ACC_C0_FIND), Symbol(SYM_HASH), Dir::Right)
            &&& x[n + 9] == (State(CHK_ACC_C0_FIND), Symbol(SYM_X), State(CHK_ACC_C0_FIND), Symbol(SYM_X), Dir::Right)
            &&& x[n + 10] == (State(CHK_ACC_C0_FIND), Symbol(SYM_Y), State(CHK_ACC_C0_FIND), Symbol(SYM_Y), Dir::Right)
            &&& x[n + 11] == (State(CHK_ACC_C0_FIND), Symbol(SYM_ZERO), State(CHK_ACC_OK), Symbol(SYM_X), Dir::Left)
            &&& x[n + 12] == (State(CHK_ACC_C0_FIND), Symbol(SYM_ONE), State(CHK_ACC_FAIL_BIT), Symbol(SYM_Y), Dir::Left)
            &&& x[n + 13] == (State(CHK_ACC_C1), Symbol(SYM_ZERO), State(CHK_ACC_C1), Symbol(SYM_ZERO), Dir::Right)
            &&& x[n + 14] == (State(CHK_ACC_C1), Symbol(SYM_ONE), State(CHK_ACC_C1), Symbol(SYM_ONE), Dir::Right)
            &&& x[n + 15] == (State(CHK_ACC_C1), Symbol(SYM_X), State(CHK_ACC_C1), Symbol(SYM_X), Dir::Right)
            &&& x[n + 16] == (State(CHK_ACC_C1), Symbol(SYM_Y), State(CHK_ACC_C1), Symbol(SYM_Y), Dir::Right)
            &&& x[n + 17] == (State(CHK_ACC_C1), Symbol(SYM_SEMI), State(CHK_ACC_C1), Symbol(SYM_SEMI), Dir::Right)
            &&& x[n + 18] == (State(CHK_ACC_C1), Symbol(SYM_HASH), State(CHK_ACC_C1_FIND), Symbol(SYM_HASH), Dir::Right)
            &&& x[n + 19] == (State(CHK_ACC_C1_FIND), Symbol(SYM_X), State(CHK_ACC_C1_FIND), Symbol(SYM_X), Dir::Right)
            &&& x[n + 20] == (State(CHK_ACC_C1_FIND), Symbol(SYM_Y), State(CHK_ACC_C1_FIND), Symbol(SYM_Y), Dir::Right)
            &&& x[n + 21] == (State(CHK_ACC_C1_FIND), Symbol(SYM_ONE), State(CHK_ACC_OK), Symbol(SYM_Y), Dir::Left)
            &&& x[n + 22] == (State(CHK_ACC_C1_FIND), Symbol(SYM_ZERO), State(CHK_ACC_FAIL_BIT), Symbol(SYM_X), Dir::Left)
        }),
{
}

/// What the rules of `accept_bit_matched_rules_from` come to, by position after the rules
/// before them.
proof fn lemma_matched_block(acc: Seq<ByteRule>)
    ensures
        ({
            let x = accept_bit_matched_rules_from(acc);
            let n = acc.len() as int;
            &&& x.len() == n + 23
            &&& forall|i: int| 0 <= i < n ==> #[trigger] x[i] == acc[i]
            &&& x[n + 0] == (State(CHK_ACC_OK), Symbol(SYM_ZERO), State(CHK_ACC_OK), Symbol(SYM_ZERO), Dir::Left)
            &&& x[n + 1] == (State(CHK_ACC_OK), Symbol(SYM_ONE), State(CHK_ACC_OK), Symbol(SYM_ONE), Dir::Left)
            &&& x[n + 2] == (State(CHK_ACC_OK), Symbol(SYM_X), State(CHK_ACC_OK), Symbol(SYM_X), Dir::Left)
            &&& x[n + 3] == (State(CHK_ACC_OK), Symbol(SYM_Y), State(CHK_ACC_OK), Symbol(SYM_Y), Dir::Left)
            &&& x[n + 4] == (State(CHK_ACC_OK), Symbol(SYM_HASH), State(CHK_ACC_OK_ACC), Symbol(SYM_HASH), Dir::Left)
            &&& x[n + 5] == (State(CHK_ACC_OK_ACC), Symbol(SYM_ZERO), State(CHK_ACC_OK_ACC), Symbol(SYM_ZERO), Dir::Left)
            &&& x[n + 6] == (State(CHK_ACC_OK_ACC), Symbol(SYM_ONE), State(CHK_ACC_OK_ACC), Symbol(SYM_ONE), Dir::Left)
            &&& x[n + 7] == (State(CHK_ACC_OK_ACC), Symbol(SYM_X), State(CHK_ACC_OK_ACC), Symbol(SYM_X), Dir::Left)
            &&& x[n + 8] == (State(CHK_ACC_OK_ACC), Symbol(SYM_Y), State(CHK_ACC_OK_ACC), Symbol(SYM_Y), Dir::Left)
            &&& x[n + 9] == (State(CHK_ACC_OK_ACC), Symbol(SYM_SEMI), State(CHK_ACC_OK_ACC), Symbol(SYM_SEMI), Dir::Left)
            &&& x[n + 10] == (State(CHK_ACC_OK_ACC), Symbol(SYM_HASH), State(CHK_ACC_OK_FIND), Symbol(SYM_HASH), Dir::Right)
            &&& x[n + 11] == (State(CHK_ACC_OK_FIND), Symbol(SYM_ZERO), State(CHK_ACC_OK_FIND), Symbol(SYM_ZERO), Dir::Right)
            &&& x[n + 12] == (State(CHK_ACC_OK_FIND), Symbol(SYM_ONE), State(CHK_ACC_OK_FIND), Symbol(SYM_ONE), Dir::Right)
            &&& x[n + 13] == (State(CHK_ACC_OK_FIND), Symbol(SYM_SEMI), State(CHK_ACC_OK_FIND), Symbol(SYM_SEMI), Dir::Right)
            &&& x[n + 14] == (State(CHK_ACC_OK_FIND), Symbol(SYM_X), State(CHK_ACC_OK_SKIP), Symbol(SYM_X), Dir::Right)
            &&& x[n + 15] == (State(CHK_ACC_OK_FIND), Symbol(SYM_Y), State(CHK_ACC_OK_SKIP), Symbol(SYM_Y), Dir::Right)
            &&& x[n + 16] == (State(CHK_ACC_OK_FIND), Symbol(SYM_HASH), State(ACCEPT_SEEK_HOME), Symbol(SYM_HASH), Dir::Left)
            &&& x[n + 17] == (State(CHK_ACC_OK_SKIP), Symbol(SYM_X), State(CHK_ACC_OK_SKIP), Symbol(SYM_X), Dir::Right)
            &&& x[n + 18] == (State(CHK_ACC_OK_SKIP), Symbol(SYM_Y), State(CHK_ACC_OK_SKIP), Symbol(SYM_Y), Dir::Right)
            &&& x[n + 19] == (State(CHK_ACC_OK_SKIP), Symbol(SYM_ZERO), State(CHK_ACC_C0), Symbol(SYM_X), Dir::Right)
            &&& x[n + 20] == (State(CHK_ACC_OK_SKIP), Symbol(SYM_ONE), State(CHK_ACC_C1), Symbol(SYM_Y), Dir::Right)
            &&& x[n + 21] == (State(CHK_ACC_OK_SKIP), Symbol(SYM_SEMI), State(ACCEPT_SEEK_HOME), Symbol(SYM_SEMI), Dir::Left)
            &&& x[n + 22] == (State(CHK_ACC_OK_SKIP), Symbol(SYM_HASH), State(ACCEPT_SEEK_HOME), Symbol(SYM_HASH), Dir::Left)
        }),
{
}

/// The rules that carry a bit of an accepting state over to the current
/// state and compare it there, as the universal machine's table holds
/// them.
#[verifier::spinoff_prover]
#[verifier::rlimit(100)]
pub proof fn lemma_compare_bit_table(u: &TuringMachineSpec)
    requires
        is_utm_shape(u),
    ensures
        ({
            let t = u.transitions@;
            &&& t[table_index(State(CHK_ACC_INIT), Symbol(SYM_ZERO))] == Some((State(CHK_ACC_C0), Symbol(SYM_X), Dir::Right))
            &&& t[table_index(State(CHK_ACC_INIT), Symbol(SYM_ONE))] == Some((State(CHK_ACC_C1), Symbol(SYM_Y), Dir::Right))
            &&& t[table_index(State(CHK_ACC_C0), Symbol(SYM_ZERO))] == Some((State(CHK_ACC_C0), Symbol(SYM_ZERO), Dir::Right))
            &&& t[table_index(State(CHK_ACC_C0), Symbol(SYM_ONE))] == Some((State(CHK_ACC_C0), Symbol(SYM_ONE), Dir::Right))
            &&& t[table_index(State(CHK_ACC_C0), Symbol(SYM_X))] == Some((State(CHK_ACC_C0), Symbol(SYM_X), Dir::Right))
            &&& t[table_index(State(CHK_ACC_C0), Symbol(SYM_Y))] == Some((State(CHK_ACC_C0), Symbol(SYM_Y), Dir::Right))
            &&& t[table_index(State(CHK_ACC_C0), Symbol(SYM_SEMI))] == Some((State(CHK_ACC_C0), Symbol(SYM_SEMI), Dir::Right))
            &&& t[table_index(State(CHK_ACC_C0), Symbol(SYM_HASH))] == Some((State(CHK_ACC_C0_FIND), Symbol(SYM_HASH), Dir::Right))
            &&& t[table_index(State(CHK_ACC_C0_FIND), Symbol(SYM_X))] == Some((State(CHK_ACC_C0_FIND), Symbol(SYM_X), Dir::Right))
            &&& t[table_index(State(CHK_ACC_C0_FIND), Symbol(SYM_Y))] == Some((State(CHK_ACC_C0_FIND), Symbol(SYM_Y), Dir::Right))
            &&& t[table_index(State(CHK_ACC_C0_FIND), Symbol(SYM_ZERO))] == Some((State(CHK_ACC_OK), Symbol(SYM_X), Dir::Left))
            &&& t[table_index(State(CHK_ACC_C0_FIND), Symbol(SYM_ONE))] == Some((State(CHK_ACC_FAIL_BIT), Symbol(SYM_Y), Dir::Left))
            &&& t[table_index(State(CHK_ACC_C1), Symbol(SYM_ZERO))] == Some((State(CHK_ACC_C1), Symbol(SYM_ZERO), Dir::Right))
            &&& t[table_index(State(CHK_ACC_C1), Symbol(SYM_ONE))] == Some((State(CHK_ACC_C1), Symbol(SYM_ONE), Dir::Right))
            &&& t[table_index(State(CHK_ACC_C1), Symbol(SYM_X))] == Some((State(CHK_ACC_C1), Symbol(SYM_X), Dir::Right))
            &&& t[table_index(State(CHK_ACC_C1), Symbol(SYM_Y))] == Some((State(CHK_ACC_C1), Symbol(SYM_Y), Dir::Right))
            &&& t[table_index(State(CHK_ACC_C1), Symbol(SYM_SEMI))] == Some((State(CHK_ACC_C1), Symbol(SYM_SEMI), Dir::Right))
            &&& t[table_index(State(CHK_ACC_C1), Symbol(SYM_HASH))] == Some((State(CHK_ACC_C1_FIND), Symbol(SYM_HASH), Dir::Right))
            &&& t[table_index(State(CHK_ACC_C1_FIND), Symbol(SYM_X))] == Some((State(CHK_ACC_C1_FIND), Symbol(SYM_X), Dir::Right))
            &&& t[table_index(State(CHK_ACC_C1_FIND), Symbol(SYM_Y))] == Some((State(CHK_ACC_C1_FIND), Symbol(SYM_Y), Dir::Right))
            &&& t[table_index(State(CHK_ACC_C1_FIND), Symbol(SYM_ONE))] == Some((State(CHK_ACC_OK), Symbol(SYM_Y), Dir::Left))
            &&& t[table_index(State(CHK_ACC_C1_FIND), Symbol(SYM_ZERO))] == Some((State(CHK_ACC_FAIL_BIT), Symbol(SYM_X), Dir::Left))
        }),
{
    lemma_list_ends_with_next_entry_block();
    let acc1 = choose|acc: Seq<ByteRule>|
        utm_rule_list() == reject_rules_from(
            accept_rules_from(
                accept_next_entry_rules_from(
                    accept_bit_mismatch_rules_from(accept_bit_matched_rules_from(check_accept_rules_from(acc))),
                ),
            ),
        );
    let c = check_accept_rules_from(acc1);
    let mt = accept_bit_matched_rules_from(c);
    let m = accept_bit_mismatch_rules_from(mt);
    let x = accept_next_entry_rules_from(m);
    lemma_check_block(acc1);
    lemma_matched_block(c);
    lemma_mismatch_block(mt);
    lemma_next_entry_block(m);
    lemma_last_blocks_keep(x);
    let rules = utm_rule_list();
    let n = acc1.len() as int;
    assert forall|k: int| 0 <= k < 23 implies #[trigger] rules[n + k] == c[n + k] by {
        assert(x[n + k] == m[n + k]);
        assert(m[n + k] == mt[n + k]);
        assert(mt[n + k] == c[n + k]);
    }
    assert forall|k: int| 0 <= k < 23 implies table_of(rules)[table_index(
        (#[trigger] rules[n + k]).0,
        rules[n + k].1,
    )] == Some((rules[n + k].2, rules[n + k].3, rules[n + k].4)) by {
        lemma_table_holds_rule(rules, n + k);
    }
    assert(rules[n + 1] == c[n + 1]);
    assert(rules[n + 2] == c[n + 2]);
    assert(rules[n + 3] == c[n + 3]);
    assert(rules[n + 4] == c[n + 4]);
    assert(rules[n + 5] == c[n + 5]);
    assert(rules[n + 6] == c[n + 6]);
    assert(rules[n + 7] == c[n + 7]);
    assert(rules[n + 8] == c[n + 8]);
    assert(rules[n + 9] == c[n + 9]);
    assert(rules[n + 10] == c[n + 10]);
    assert(rules[n + 11] == c[n + 11]);
    assert(rules[n + 12] == c[n + 12]);
    assert(rules[n + 13] == c[n + 13]);
    assert(rules[n + 14] == c[n + 14]);
    assert(rules[n + 15] == c[n + 15]);
    assert(rules[n + 16] == c[n + 16]);
    assert(rules[n + 17] == c[n + 17]);
    assert(rules[n + 18] == c[n + 18]);
    assert(rules[n + 19] == c[n + 19]);
    assert(rules[n + 20] == c[n + 20]);
    assert(rules[n + 21] == c[n + 21]);
    assert(rules[n + 22] == c[n + 22]);
}

/// The rules that, after a bit matched, go back to the accepting state
/// for its next bit, or accept where it has none, as the universal
/// machine's table holds them.
#[verifier::spinoff_prover]
#[verifier::rlimit(100)]
pub proof fn lemma_matched_bit_table(u: &TuringMachineSpec)
    requires
        is_utm_shape(u),
    ensures
        ({
            let t = u.transitions@;
            &&& t[table_index(State(CHK_ACC_OK), Symbol(SYM_ZERO))] == Some((State(CHK_ACC_OK), Symbol(SYM_ZERO), Dir::Left))
            &&& t[table_index(State(CHK_ACC_OK), Symbol(SYM_ONE))] == Some((State(CHK_ACC_OK), Symbol(SYM_ONE), Dir::Left))
            &&& t[table_index(State(CHK_ACC_OK), Symbol(SYM_X))] == Some((State(CHK_ACC_OK), Symbol(SYM_X), Dir::Left))
            &&& t[table_index(State(CHK_ACC_OK), Symbol(SYM_Y))] == Some((State(CHK_ACC_OK), Symbol(SYM_Y), Dir::Left))
            &&& t[table_index(State(CHK_ACC_OK), Symbol(SYM_HASH))] == Some((State(CHK_ACC_OK_ACC), Symbol(SYM_HASH), Dir::Left))
            &&& t[table_index(State(CHK_ACC_OK_ACC), Symbol(SYM_ZERO))] == Some((State(CHK_ACC_OK_ACC), Symbol(SYM_ZERO), Dir::Left))
            &&& t[table_index(State(CHK_ACC_OK_ACC), Symbol(SYM_ONE))] == Some((State(CHK_ACC_OK_ACC), Symbol(SYM_ONE), Dir::Left))
            &&& t[table_index(State(CHK_ACC_OK_ACC), Symbol(SYM_X))] == Some((State(CHK_ACC_OK_ACC), Symbol(SYM_X), Dir::Left))
            &&& t[table_index(State(CHK_ACC_OK_ACC), Symbol(SYM_Y))] == Some((State(CHK_ACC_OK_ACC), Symbol(SYM_Y), Dir::Left))
            &&& t[table_index(State(CHK_ACC_OK_ACC), Symbol(SYM_SEMI))] == Some((State(CHK_ACC_OK_ACC), Symbol(SYM_SEMI), Dir::Left))
            &&& t[table_index(State(CHK_ACC_OK_ACC), Symbol(SYM_HASH))] == Some((State(CHK_ACC_OK_FIND), Symbol(SYM_HASH), Dir::Right))
            &&& t[table_index(State(CHK_ACC_OK_FIND), Symbol(SYM_ZERO))] == Some((State(CHK_ACC_OK_FIND), Symbol(SYM_ZERO), Dir::Right))
            &&& t[table_index(State(CHK_ACC_OK_FIND), Symbol(SYM_ONE))] == Some((State(CHK_ACC_OK_FIND), Symbol(SYM_ONE), Dir::Right))
            &&& t[table_index(State(CHK_ACC_OK_FIND), Symbol(SYM_SEMI))] == Some((State(CHK_ACC_OK_FIND), Symbol(SYM_SEMI), Dir::Right))
            &&& t[table_index(State(CHK_ACC_OK_FIND), Symbol(SYM_X))] == Some((State(CHK_ACC_OK_SKIP), Symbol(SYM_X), Dir::Right))
            &&& t[table_index(State(CHK_ACC_OK_FIND), Symbol(SYM_Y))] == Some((State(CHK_ACC_OK_SKIP), Symbol(SYM_Y), Dir::Right))
            &&& t[table_index(State(CHK_ACC_OK_FIND), Symbol(SYM_HASH))] == Some((State(ACCEPT_SEEK_HOME), Symbol(SYM_HASH), Dir::Left))
            &&& t[table_index(State(CHK_ACC_OK_SKIP), Symbol(SYM_X))] == Some((State(CHK_ACC_OK_SKIP), Symbol(SYM_X), Dir::Right))
            &&& t[table_index(State(CHK_ACC_OK_SKIP), Symbol(SYM_Y))] == Some((State(CHK_ACC_OK_SKIP), Symbol(SYM_Y), Dir::Right))
            &&& t[table_index(State(CHK_ACC_OK_SKIP), Symbol(SYM_ZERO))] == Some((State(CHK_ACC_C0), Symbol(SYM_X), Dir::Right))
            &&& t[table_index(State(CHK_ACC_OK_SKIP), Symbol(SYM_ONE))] == Some((State(CHK_ACC_C1), Symbol(SYM_Y), Dir::Right))
            &&& t[table_index(State(CHK_ACC_OK_SKIP), Symbol(SYM_SEMI))] == Some((State(ACCEPT_SEEK_HOME), Symbol(SYM_SEMI), Dir::Left))
            &&& t[table_index(State(CHK_ACC_OK_SKIP), Symbol(SYM_HASH))] == Some((State(ACCEPT_SEEK_HOME), Symbol(SYM_HASH), Dir::Left))
        }),
{
    lemma_list_ends_with_next_entry_block();
    let acc1 = choose|acc: Seq<ByteRule>|
        utm_rule_list() == reject_rules_from(
            accept_rules_from(
                accept_next_entry_rules_from(
                    accept_bit_mismatch_rules_from(accept_bit_matched_rules_from(check_accept_rules_from(acc))),
                ),
            ),
        );
    let c = check_accept_rules_from(acc1);
    let mt = accept_bit_matched_rules_from(c);
    let m = accept_bit_mismatch_rules_from(mt);
    let x = accept_next_entry_rules_from(m);
    lemma_check_block(acc1);
    lemma_matched_block(c);
    lemma_mismatch_block(mt);
    lemma_next_entry_block(m);
    lemma_last_blocks_keep(x);
    let rules = utm_rule_list();
    let n = c.len() as int;
    assert forall|k: int| 0 <= k < 23 implies #[trigger] rules[n + k] == mt[n + k] by {
        assert(x[n + k] == m[n + k]);
        assert(m[n + k] == mt[n + k]);
    }
    assert forall|k: int| 0 <= k < 23 implies table_of(rules)[table_index(
        (#[trigger] rules[n + k]).0,
        rules[n + k].1,
    )] == Some((rules[n + k].2, rules[n + k].3, rules[n + k].4)) by {
        lemma_table_holds_rule(rules, n + k);
    }
    assert(rules[n + 0] == mt[n + 0]);
    assert(rules[n + 1] == mt[n + 1]);
    assert(rules[n + 2] == mt[n + 2]);
    assert(rules[n + 3] == mt[n + 3]);
    assert(rules[n + 4] == mt[n + 4]);
    assert(rules[n + 5] == mt[n + 5]);
    assert(rules[n + 6] == mt[n + 6]);
    assert(rules[n + 7] == mt[n + 7]);
    assert(rules[n + 8] == mt[n + 8]);
    assert(rules[n + 9] == mt[n + 9]);
    assert(rules[n + 10] == mt[n + 10]);
    assert(rules[n + 11] == mt[n + 11]);
    assert(rules[n + 12] == mt[n + 12]);
    assert(rules[n + 13] == mt[n + 13]);
    assert(rules[n + 14] == mt[n + 14]);
    assert(rules[n + 15] == mt[n + 15]);
    assert(rules[n + 16] == mt[n + 16]);
    assert(rules[n + 17] == mt[n + 17]);
    assert(rules[n + 18] == mt[n + 18]);
    assert(rules[n + 19] == mt[n + 19]);
    assert(rules[n + 20] == mt[n + 20]);
    assert(rules[n + 21] == mt[n + 21]);
    assert(rules[n + 22] == mt[n + 22]);
}


/// The tape while an accepting state at `e` is compared with the current
/// state at `s`: the first `x` bits of the one and the first `y` bits of
/// the other marked.
pub open spec fn compare_tape(t: spec_fn(int) -> Symbol, e: int, s: int, x: nat, y: nat) -> spec_fn(int) -> Symbol {
    mark_cells(mark_cells(t, e, e + x), s, s + y)
}

/// The state that carries bit `b` of an accepting state to the current
/// state.
pub open spec fn carry_state(b: Symbol) -> State {
    if b == Symbol(SYM_ZERO) {
        State(CHK_ACC_C0)
    } else {
        State(CHK_ACC_C1)
    }
}

/// How the tape stands while the universal machine compares an accepting
/// state of `sb` bits at `e` with the current state: the accepting states
/// lie between the `#` at `a - 1` and the `#` at `q`, made of bits and
/// `;`; the one at `e` is followed by a `;` or that `#`; the current
/// state's `sb` bits follow the `#` at `q`, and another `#` follows them.
pub open spec fn accept_check_layout(t: spec_fn(int) -> Symbol, a: int, q: int, e: int, sb: nat) -> bool {
    &&& a <= e
    &&& e + sb <= q
    &&& t(a - 1) == Symbol(SYM_HASH)
    &&& t(q) == Symbol(SYM_HASH)
    &&& forall|k: int| a <= k < q ==> is_code_bit(#[trigger] t(k)) || t(k) == Symbol(SYM_SEMI)
    &&& forall|k: int| e <= k < e + sb ==> is_code_bit(#[trigger] t(k))
    &&& e + sb < q ==> t(e + sb) == Symbol(SYM_SEMI)
    &&& forall|k: int| q + 1 <= k < q + 1 + sb ==> is_code_bit(#[trigger] t(k))
    &&& t(q + 1 + sb) == Symbol(SYM_HASH)
}

/// Carrying bit `i` of the accepting state to the current state and
/// comparing it there with the current state's bit `i`.
proof fn lemma_carry_bit(
    u: &TuringMachineSpec,
    t: spec_fn(int) -> Symbol,
    a: int,
    q: int,
    e: int,
    sb: nat,
    i: nat,
    fuel: nat,
    done: int,
    limit: i64,
)
    requires
        is_utm_shape(u),
        accept_check_layout(t, a, q, e, sb),
        i < sb,
    ensures
        ({
            let b = t(e + i);
            let n = (q - e - i - 1) + i + 2;
            let next = if t(q + 1 + i) == b {
                State(CHK_ACC_OK)
            } else {
                State(CHK_ACC_FAIL_BIT)
            };
            run_bytes(u, compare_tape(t, e, q + 1, i + 1, i), e + i + 1, carry_state(b), (fuel + n) as nat, done, limit)
                == run_bytes(u, compare_tape(t, e, q + 1, i + 1, i + 1), q + i, next, fuel, done + n, limit)
        }),
{
    lemma_compare_bit_table(u);
    let b = t(e + i);
    let cb = carry_state(b);
    let fnd = if b == Symbol(SYM_ZERO) {
        State(CHK_ACC_C0_FIND)
    } else {
        State(CHK_ACC_C1_FIND)
    };
    let tc = compare_tape(t, e, q + 1, i + 1, i);
    let n1 = (q - e - i - 1) as nat;
    assert forall|k: int| e + i + 1 <= k < e + i + 1 + n1 implies u.transitions@[table_index(cb, #[trigger] tc(k))]
        == Some((cb, tc(k), Dir::Right)) by {
        assert(is_code_bit(t(k)) || t(k) == Symbol(SYM_SEMI));
    }
    lemma_keeping_scan(u, tc, e + i + 1, n1, cb, Dir::Right, fuel + i + 2, done, limit);
    assert(write_cell(tc, q, Symbol(SYM_HASH)) =~= tc);
    assert(run_bytes(u, tc, q, cb, fuel + i + 2, done + n1, limit) == run_bytes(
        u,
        tc,
        q + 1,
        fnd,
        fuel + i + 1,
        done + n1 + 1,
        limit,
    ));
    assert forall|k: int| q + 1 <= k < q + 1 + i implies u.transitions@[table_index(fnd, #[trigger] tc(k))] == Some(
        (fnd, tc(k), Dir::Right),
    ) by {
        assert(is_code_bit(t(k)));
    }
    lemma_keeping_scan(u, tc, q + 1, i, fnd, Dir::Right, fuel + 1, done + n1 + 1, limit);
    let v = t(q + 1 + i);
    assert(tc(q + 1 + i) == v);
    assert(write_cell(tc, q + 1 + i, marked_bit(v)) =~= compare_tape(t, e, q + 1, i + 1, i + 1));
}


/// After bit `i` matched, going back to the accepting state for its next
/// bit: past the marked bits of the current state, the accepting states
/// and the marked bits of the one being compared.
proof fn lemma_back_to_entry(
    u: &TuringMachineSpec,
    t: spec_fn(int) -> Symbol,
    a: int,
    q: int,
    e: int,
    sb: nat,
    i: nat,
    fuel: nat,
    done: int,
    limit: i64,
)
    requires
        is_utm_shape(u),
        accept_check_layout(t, a, q, e, sb),
        i < sb,
    ensures
        ({
            let tc = compare_tape(t, e, q + 1, i + 1, i + 1);
            let n = 2 * i + (q - a) + (e - a) + 3;
            run_bytes(u, tc, q + i, State(CHK_ACC_OK), (fuel + n) as nat, done, limit) == run_bytes(
                u,
                tc,
                e + i + 1,
                State(CHK_ACC_OK_SKIP),
                fuel,
                done + n,
                limit,
            )
        }),
{
    lemma_matched_bit_table(u);
    let ok = State(CHK_ACC_OK);
    let oa = State(CHK_ACC_OK_ACC);
    let of_ = State(CHK_ACC_OK_FIND);
    let sk = State(CHK_ACC_OK_SKIP);
    let tc = compare_tape(t, e, q + 1, i + 1, i + 1);
    let w = (q - a) as nat;
    let z = (e - a) as nat;
    // Over the marked bits of the current state.
    let f1 = fuel + i + w + z + 3;
    assert forall|k: int| q + i - i < k <= q + i implies u.transitions@[table_index(ok, #[trigger] tc(k))] == Some(
        (ok, tc(k), Dir::Left),
    ) by {
        assert(is_code_bit(t(k)));
    }
    lemma_keeping_scan(u, tc, q + i, i, ok, Dir::Left, f1, done, limit);
    assert(write_cell(tc, q, Symbol(SYM_HASH)) =~= tc);
    assert(run_bytes(u, tc, q, ok, f1, done + i, limit) == run_bytes(
        u,
        tc,
        q - 1,
        oa,
        (f1 - 1) as nat,
        done + i + 1,
        limit,
    ));
    // Over the accepting states.
    let f2 = fuel + i + z + 2;
    assert forall|k: int| q - 1 - w < k <= q - 1 implies u.transitions@[table_index(oa, #[trigger] tc(k))] == Some(
        (oa, tc(k), Dir::Left),
    ) by {
        assert(is_code_bit(t(k)) || t(k) == Symbol(SYM_SEMI));
    }
    lemma_keeping_scan(u, tc, q - 1, w, oa, Dir::Left, f2, done + i + 1, limit);
    assert(write_cell(tc, a - 1, Symbol(SYM_HASH)) =~= tc);
    assert(run_bytes(u, tc, a - 1, oa, f2, done + i + 1 + w, limit) == run_bytes(
        u,
        tc,
        a,
        of_,
        (f2 - 1) as nat,
        done + i + w + 2,
        limit,
    ));
    // Over the accepting states before the one being compared.
    let f3 = fuel + i + 1;
    assert forall|k: int| a <= k < a + z implies u.transitions@[table_index(of_, #[trigger] tc(k))] == Some(
        (of_, tc(k), Dir::Right),
    ) by {
        assert(is_code_bit(t(k)) || t(k) == Symbol(SYM_SEMI));
    }
    lemma_keeping_scan(u, tc, a, z, of_, Dir::Right, f3, done + i + w + 2, limit);
    assert(is_code_bit(t(e)));
    assert(write_cell(tc, e, tc(e)) =~= tc);
    assert(run_bytes(u, tc, e, of_, f3, done + i + w + z + 2, limit) == run_bytes(
        u,
        tc,
        e + 1,
        sk,
        fuel + i,
        done + i + w + z + 3,
        limit,
    ));
    // Over its marked bits.
    assert forall|k: int| e + 1 <= k < e + 1 + i implies u.transitions@[table_index(sk, #[trigger] tc(k))] == Some(
        (sk, tc(k), Dir::Right),
    ) by {
        assert(is_code_bit(t(k)));
    }
    lemma_keeping_scan(u, tc, e + 1, i, sk, Dir::Right, fuel, done + i + w + z + 3, limit);
}


/// Bit `k` of the code at `e` equals bit `k` of the code at `s`.
pub open spec fn agrees(t: spec_fn(int) -> Symbol, e: int, s: int, k: int) -> bool {
    t(e + k) == t(s + k)
}

/// The first bit from `i` on where the code at `e` and the current state
/// at `s` differ, or `sb` where none does.
pub open spec fn first_difference(t: spec_fn(int) -> Symbol, e: int, s: int, sb: nat, i: nat) -> nat
    decreases sb - i,
{
    if i >= sb {
        sb
    } else if !agrees(t, e, s, i as int) {
        i
    } else {
        first_difference(t, e, s, sb, i + 1)
    }
}

/// The number of steps the comparison of the code at `e` with the current
/// state takes from bit `i` on.
pub open spec fn compare_steps(t: spec_fn(int) -> Symbol, a: int, q: int, e: int, sb: nat, i: nat) -> nat
    decreases sb - i,
{
    let nc = ((q - e - i - 1) + i + 2) as nat;
    let nb = (2 * i + (q - a) + (e - a) + 3) as nat;
    if i >= sb {
        0
    } else if !agrees(t, e, q + 1, i as int) {
        nc
    } else if i + 1 < sb {
        nc + nb + 1 + compare_steps(t, a, q, e, sb, i + 1)
    } else {
        nc + nb + 1
    }
}

/// The universal machine compares an accepting state with the current
/// state bit by bit, from bit `i` on, the first `i` bits having matched
/// and bit `i` of the accepting state marked and being carried. The
/// result `(n, m)`: `m` is the first bit from `i` on where the two differ,
/// or `sb` where none does; `n` steps later the machine either found that
/// difference (both codes marked up to bit `m`, then back at the current
/// state's start to undo the comparison) or, where the two are equal,
/// starts accepting (both codes marked whole).
pub proof fn lemma_byte_compare_entry(
    u: &TuringMachineSpec,
    t: spec_fn(int) -> Symbol,
    a: int,
    q: int,
    e: int,
    sb: nat,
    i: nat,
    fuel: nat,
    done: int,
    limit: i64,
) -> (r: (nat, nat))
    requires
        is_utm_shape(u),
        accept_check_layout(t, a, q, e, sb),
        i < sb,
        forall|k: int| 0 <= k < i ==> #[trigger] agrees(t, e, q + 1, k),
    ensures
        r.0 == compare_steps(t, a, q, e, sb, i),
        r.1 == first_difference(t, e, q + 1, sb, i),
        i <= r.1 <= sb,
        forall|k: int| i <= k < r.1 ==> #[trigger] agrees(t, e, q + 1, k),
        r.1 < sb ==> !agrees(t, e, q + 1, r.1 as int),
        r.1 < sb ==> run_bytes(
            u,
            compare_tape(t, e, q + 1, i + 1, i),
            e + i + 1,
            carry_state(t(e + i)),
            fuel + r.0,
            done,
            limit,
        ) == run_bytes(
            u,
            compare_tape(t, e, q + 1, r.1 + 1, r.1 + 1),
            q + r.1,
            State(CHK_ACC_FAIL_BIT),
            fuel,
            done + r.0,
            limit,
        ),
        r.1 == sb ==> run_bytes(
            u,
            compare_tape(t, e, q + 1, i + 1, i),
            e + i + 1,
            carry_state(t(e + i)),
            fuel + r.0,
            done,
            limit,
        ) == run_bytes(u, compare_tape(t, e, q + 1, sb, sb), e + sb - 1, State(ACCEPT_SEEK_HOME), fuel, done + r.0, limit),
    decreases sb - i,
{
    let b = t(e + i);
    let v = t(q + 1 + i);
    let nc = ((q - e - i - 1) + i + 2) as nat;
    let nb = (2 * i + (q - a) + (e - a) + 3) as nat;
    if v != b {
        assert(!agrees(t, e, q + 1, i as int));
        assert(first_difference(t, e, q + 1, sb, i) == i);
        lemma_carry_bit(u, t, a, q, e, sb, i, fuel, done, limit);
        (nc, i)
    } else {
        assert(agrees(t, e, q + 1, i as int));
        lemma_matched_bit_table(u);
        let tc = compare_tape(t, e, q + 1, i + 1, i + 1);
        if i + 1 < sb {
            let b2 = t(e + i + 1);
            assert(is_code_bit(b2));
            assert(tc(e + i + 1) == b2);
            assert(write_cell(tc, e + i + 1, marked_bit(b2)) =~= compare_tape(t, e, q + 1, i + 2, i + 1));
            let r2 = lemma_byte_compare_entry(u, t, a, q, e, sb, i + 1, fuel, done + nc + nb + 1, limit);
            assert(run_bytes(u, tc, e + i + 1, State(CHK_ACC_OK_SKIP), fuel + r2.0 + 1, done + nc + nb, limit)
                == run_bytes(
                u,
                compare_tape(t, e, q + 1, i + 2, i + 1),
                e + i + 2,
                carry_state(b2),
                fuel + r2.0,
                done + nc + nb + 1,
                limit,
            ));
            lemma_back_to_entry(u, t, a, q, e, sb, i, fuel + r2.0 + 1, done + nc, limit);
            lemma_carry_bit(u, t, a, q, e, sb, i, fuel + r2.0 + 1 + nb, done, limit);
            assert(fuel + (nc + nb + 1 + r2.0) == fuel + r2.0 + 1 + nb + nc);
            (nc + nb + 1 + r2.0, r2.1)
        } else {
            assert(i + 1 == sb);
            assert(first_difference(t, e, q + 1, sb, i + 1) == sb);
            assert(first_difference(t, e, q + 1, sb, i) == sb);
            assert(compare_tape(t, e, q + 1, i + 1, i + 1) == compare_tape(t, e, q + 1, sb, sb));
            let y = t(e + sb);
            assert(y == Symbol(SYM_SEMI) || y == Symbol(SYM_HASH));
            assert(tc(e + sb) == y);
            assert(write_cell(tc, e + sb, y) =~= tc);
            assert(run_bytes(u, tc, e + i + 1, State(CHK_ACC_OK_SKIP), fuel + 1, done + nc + nb, limit) == run_bytes(
                u,
                tc,
                e + sb - 1,
                State(ACCEPT_SEEK_HOME),
                fuel,
                done + nc + nb + 1,
                limit,
            ));
            lemma_back_to_entry(u, t, a, q, e, sb, i, fuel + 1, done + nc, limit);
            lemma_carry_bit(u, t, a, q, e, sb, i, fuel + 1 + nb, done, limit);
            assert(fuel + (nc + nb + 1) == fuel + 1 + nb + nc);
            (nc + nb + 1, sb)
        }
    }
}


/// The code at `e` equals the current state's, bit for bit.
pub open spec fn same_code(t: spec_fn(int) -> Symbol, e: int, s: int, sb: nat) -> bool {
    forall|k: int| 0 <= k < sb ==> #[trigger] agrees(t, e, s, k)
}

/// The universal machine, checking whether the current state (at
/// `q + 1`) is accepting, compares it with the first accepting state on
/// the tape (at `a`, right after a `#`). Where the two are equal, it goes
/// on to accept. Where they differ and a second accepting state follows
/// the first after a `;`, it goes on to compare the second: it has marked
/// that state's first bit and carries it to the current state, the tape
/// otherwise as it was.
pub proof fn lemma_byte_check_first_entry(
    u: &TuringMachineSpec,
    t: spec_fn(int) -> Symbol,
    a: int,
    q: int,
    sb: nat,
    fuel: nat,
    done: int,
    limit: i64,
) -> (n: nat)
    requires
        is_utm_shape(u),
        accept_check_layout(t, a, q, a, sb),
        1 <= sb,
    ensures
        n as int == if same_code(t, a, q + 1, sb) {
            compare_steps(t, a, q, a, sb, 0) + 1int
        } else if a + sb + 1 < q && is_code_bit(t(a + sb + 1)) {
            compare_steps(t, a, q, a, sb, 0) + 1 + (first_difference(t, a, q + 1, sb, 0) + 1 + 3 * sb + (q - a) + 5)
        } else {
            0int
        },
        same_code(t, a, q + 1, sb) ==> run_bytes(u, t, a, State(CHK_ACC_INIT), fuel + n, done, limit) == run_bytes(
            u,
            compare_tape(t, a, q + 1, sb, sb),
            a + sb - 1,
            State(ACCEPT_SEEK_HOME),
            fuel,
            done + n,
            limit,
        ),
        !same_code(t, a, q + 1, sb) && a + sb + 1 < q && is_code_bit(t(a + sb + 1)) ==> run_bytes(
            u,
            t,
            a,
            State(CHK_ACC_INIT),
            fuel + n,
            done,
            limit,
        ) == run_bytes(
            u,
            compare_tape(t, a + sb + 1, q + 1, 1, 0),
            a + sb + 2,
            carry_state(t(a + sb + 1)),
            fuel,
            done + n,
            limit,
        ),
{
    lemma_compare_bit_table(u);
    let t1 = compare_tape(t, a, q + 1, 1, 0);
    assert(is_code_bit(t(a)));
    assert(write_cell(t, a, marked_bit(t(a))) =~= t1);
    let probe = lemma_byte_compare_entry(u, t, a, q, a, sb, 0, 0, done + 1, limit);
    let m = probe.1;
    if m == sb {
        assert forall|k: int| 0 <= k < sb implies #[trigger] agrees(t, a, q + 1, k) by {}
        let r = lemma_byte_compare_entry(u, t, a, q, a, sb, 0, fuel, done + 1, limit);
        if r.1 < sb {
            assert(agrees(t, a, q + 1, r.1 as int));
        }
        assert(run_bytes(u, t, a, State(CHK_ACC_INIT), fuel + r.0 + 1, done, limit) == run_bytes(
            u,
            t1,
            a + 1,
            carry_state(t(a)),
            fuel + r.0,
            done + 1,
            limit,
        ));
        r.0 + 1
    } else {
        assert(!agrees(t, a, q + 1, m as int));
        assert(!same_code(t, a, q + 1, sb));
        if a + sb + 1 < q && is_code_bit(t(a + sb + 1)) {
            let j = m + 1;
            let nm = (j + 3 * sb + (q - a) + 5) as nat;
            let r = lemma_byte_compare_entry(u, t, a, q, a, sb, 0, fuel + nm, done + 1, limit);
            if r.1 < m {
                assert(agrees(t, a, q + 1, r.1 as int));
            }
            if m < r.1 {
                assert(agrees(t, a, q + 1, m as int));
            }
            assert(r.1 == m);
            assert(compare_tape(t, a, q + 1, j, j) == mark_cells(mark_cells(t, a, a + j), q + 1, q + 1 + j));
            lemma_byte_mismatch_moves_to_next_entry(u, t, a, q, sb, j, fuel, done + 1 + r.0, limit);
            let b = t(a + sb + 1);
            assert(write_cell(t, a + sb + 1, marked_bit(b)) =~= compare_tape(t, a + sb + 1, q + 1, 1, 0));
            assert(run_bytes(u, t, a, State(CHK_ACC_INIT), fuel + nm + r.0 + 1, done, limit) == run_bytes(
                u,
                t1,
                a + 1,
                carry_state(t(a)),
                fuel + nm + r.0,
                done + 1,
                limit,
            ));
            assert(fuel + nm + r.0 + 1 == fuel + (r.0 + 1 + nm));
            r.0 + 1 + nm
        } else {
            0
        }
    }
}


/// How the tape stands when the universal machine checks whether the
/// current state is accepting, with two accepting states of `sb` bits:
/// `# first ; second # current #`, the first starting at `a`.
pub open spec fn two_entry_layout(t: spec_fn(int) -> Symbol, a: int, sb: nat) -> bool {
    let q = a + 2 * sb + 1;
    &&& 1 <= sb
    &&& t(a - 1) == Symbol(SYM_HASH)
    &&& forall|k: int| a <= k < a + sb ==> is_code_bit(#[trigger] t(k))
    &&& t(a + sb) == Symbol(SYM_SEMI)
    &&& forall|k: int| a + sb + 1 <= k < q ==> is_code_bit(#[trigger] t(k))
    &&& t(q) == Symbol(SYM_HASH)
    &&& forall|k: int| q + 1 <= k < q + 1 + sb ==> is_code_bit(#[trigger] t(k))
    &&& t(q + 1 + sb) == Symbol(SYM_HASH)
}

/// With two accepting states on the tape, the universal machine goes on
/// to accept exactly where the current state equals one of them: where
/// it equals the first, after comparing it with the first; where it
/// differs from the first and equals the second, after restoring the
/// first and comparing it with the second. Either way both codes of the
/// matching comparison are left marked for the accepting phase to undo.
pub proof fn lemma_byte_check_two_entries(
    u: &TuringMachineSpec,
    t: spec_fn(int) -> Symbol,
    a: int,
    sb: nat,
    fuel: nat,
    done: int,
    limit: i64,
) -> (n: nat)
    requires
        is_utm_shape(u),
        two_entry_layout(t, a, sb),
    ensures
        ({
            let q = a + 2 * sb + 1;
            let e = if same_code(t, a, q + 1, sb) {
                a
            } else {
                a + sb + 1
            };
            same_code(t, a, q + 1, sb) || same_code(t, a + sb + 1, q + 1, sb) ==> run_bytes(
                u,
                t,
                a,
                State(CHK_ACC_INIT),
                fuel + n,
                done,
                limit,
            ) == run_bytes(
                u,
                compare_tape(t, e, q + 1, sb, sb),
                e + sb - 1,
                State(ACCEPT_SEEK_HOME),
                fuel,
                done + n,
                limit,
            )
        }),
{
    let q = a + 2 * sb + 1;
    let e2 = a + sb + 1;
    assert(accept_check_layout(t, a, q, a, sb)) by {
        assert forall|k: int| a <= k < q implies is_code_bit(#[trigger] t(k)) || t(k) == Symbol(SYM_SEMI) by {
            if k < a + sb {
            } else if k == a + sb {
            } else {
            }
        }
    }
    assert(accept_check_layout(t, a, q, e2, sb));
    if same_code(t, a, q + 1, sb) {
        lemma_byte_check_first_entry(u, t, a, q, sb, fuel, done, limit)
    } else if same_code(t, e2, q + 1, sb) {
        let n0 = lemma_byte_check_first_entry(u, t, a, q, sb, 0, done, limit);
        let r = lemma_byte_compare_entry(u, t, a, q, e2, sb, 0, fuel, done + n0, limit);
        if r.1 < sb {
            assert(agrees(t, e2, q + 1, r.1 as int));
        }
        assert(is_code_bit(t(e2)));
        let n1 = lemma_byte_check_first_entry(u, t, a, q, sb, fuel + r.0, done, limit);
        assert(n1 == n0);
        assert(fuel + r.0 + n1 == fuel + (n1 + r.0));
        n1 + r.0
    } else {
        0
    }
}


/// The rejecting block only adds rules after the others.
proof fn lemma_reject_keeps(acc: Seq<ByteRule>)
    ensures
        reject_rules_from(acc).len() >= acc.len(),
        forall|i: int| 0 <= i < acc.len() ==> #[trigger] reject_rules_from(acc)[i] == acc[i],
{
    let z = reject_rules_from(acc);
    assert(z.subrange(0, acc.len() as int) =~= acc);
    assert forall|i: int| 0 <= i < acc.len() implies #[trigger] z[i] == acc[i] by {
        assert(z.subrange(0, acc.len() as int)[i] == z[i]);
    }
}

/// What the rules of `accept_rules_from` come to, by position after the rules
/// before them.
proof fn lemma_accept_block(acc: Seq<ByteRule>)
    ensures
        ({
            let x = accept_rules_from(acc);
            let n = acc.len() as int;
            &&& x.len() == n + 32
            &&& forall|i: int| 0 <= i < n ==> #[trigger] x[i] == acc[i]
            &&& x[n + 0] == (State(ACCEPT_SEEK_HOME), Symbol(SYM_ZERO), State(ACCEPT_SEEK_HOME), Symbol(SYM_ZERO), Dir::Left)
            &&& x[n + 1] == (State(ACCEPT_SEEK_HOME), Symbol(SYM_ONE), State(ACCEPT_SEEK_HOME), Symbol(SYM_ONE), Dir::Left)
            &&& x[n + 2] == (State(ACCEPT_SEEK_HOME), Symbol(SYM_X), State(ACCEPT_SEEK_HOME), Symbol(SYM_X), Dir::Left)
            &&& x[n + 3] == (State(ACCEPT_SEEK_HOME), Symbol(SYM_Y), State(ACCEPT_SEEK_HOME), Symbol(SYM_Y), Dir::Left)
            &&& x[n + 4] == (State(ACCEPT_SEEK_HOME), Symbol(SYM_SEMI), State(ACCEPT_SEEK_HOME), Symbol(SYM_SEMI), Dir::Left)
            &&& x[n + 5] == (State(ACCEPT_SEEK_HOME), Symbol(SYM_HASH), State(ACC_REST_ACC), Symbol(SYM_HASH), Dir::Right)
            &&& x[n + 6] == (State(ACC_REST_ACC), Symbol(SYM_X), State(ACC_REST_ACC), Symbol(SYM_ZERO), Dir::Right)
            &&& x[n + 7] == (State(ACC_REST_ACC), Symbol(SYM_Y), State(ACC_REST_ACC), Symbol(SYM_ONE), Dir::Right)
            &&& x[n + 8] == (State(ACC_REST_ACC), Symbol(SYM_ZERO), State(ACC_REST_ACC), Symbol(SYM_ZERO), Dir::Right)
            &&& x[n + 9] == (State(ACC_REST_ACC), Symbol(SYM_ONE), State(ACC_REST_ACC), Symbol(SYM_ONE), Dir::Right)
            &&& x[n + 10] == (State(ACC_REST_ACC), Symbol(SYM_SEMI), State(ACC_REST_ACC), Symbol(SYM_SEMI), Dir::Right)
            &&& x[n + 11] == (State(ACC_REST_ACC), Symbol(SYM_HASH), State(ACC_REST_STATE), Symbol(SYM_HASH), Dir::Right)
            &&& x[n + 12] == (State(ACC_REST_STATE), Symbol(SYM_X), State(ACC_REST_STATE), Symbol(SYM_ZERO), Dir::Right)
            &&& x[n + 13] == (State(ACC_REST_STATE), Symbol(SYM_Y), State(ACC_REST_STATE), Symbol(SYM_ONE), Dir::Right)
            &&& x[n + 14] == (State(ACC_REST_STATE), Symbol(SYM_ZERO), State(ACC_REST_STATE), Symbol(SYM_ZERO), Dir::Right)
            &&& x[n + 15] == (State(ACC_REST_STATE), Symbol(SYM_ONE), State(ACC_REST_STATE), Symbol(SYM_ONE), Dir::Right)
            &&& x[n + 16] == (State(ACC_REST_STATE), Symbol(SYM_HASH), State(ACC_FINAL_HOME), Symbol(SYM_HASH), Dir::Left)
            &&& x[n + 17] == (State(ACC_FINAL_HOME), Symbol(SYM_ZERO), State(ACC_FINAL_HOME), Symbol(SYM_ZERO), Dir::Left)
            &&& x[n + 18] == (State(ACC_FINAL_HOME), Symbol(SYM_ONE), State(ACC_FINAL_HOME), Symbol(SYM_ONE), Dir::Left)
            &&& x[n + 19] == (State(ACC_FINAL_HOME), Symbol(SYM_X), State(ACC_FINAL_HOME), Symbol(SYM_X), Dir::Left)
            &&& x[n + 20] == (State(ACC_FINAL_HOME), Symbol(SYM_Y), State(ACC_FINAL_HOME), Symbol(SYM_Y), Dir::Left)
            &&& x[n + 21] == (State(ACC_FINAL_HOME), Symbol(SYM_HASH), State(ACC_FINAL_HOME), Symbol(SYM_HASH), Dir::Left)
            &&& x[n + 22] == (State(ACC_FINAL_HOME), Symbol(SYM_PIPE), State(ACC_FINAL_HOME), Symbol(SYM_PIPE), Dir::Left)
            &&& x[n + 23] == (State(ACC_FINAL_HOME), Symbol(SYM_SEMI), State(ACC_FINAL_HOME), Symbol(SYM_SEMI), Dir::Left)
            &&& x[n + 24] == (State(ACC_FINAL_HOME), Symbol(SYM_COMMA), State(ACC_FINAL_HOME), Symbol(SYM_COMMA), Dir::Left)
            &&& x[n + 25] == (State(ACC_FINAL_HOME), Symbol(SYM_CARET), State(ACC_FINAL_HOME), Symbol(SYM_CARET), Dir::Left)
            &&& x[n + 26] == (State(ACC_FINAL_HOME), Symbol(SYM_DOT), State(ACC_FINAL_HOME), Symbol(SYM_DOT), Dir::Left)
            &&& x[n + 27] == (State(ACC_FINAL_HOME), Symbol(SYM_STAR), State(ACC_FINAL_HOME), Symbol(SYM_STAR), Dir::Left)
            &&& x[n + 28] == (State(ACC_FINAL_HOME), Symbol(SYM_GT), State(ACC_FINAL_HOME), Symbol(SYM_GT), Dir::Left)
            &&& x[n + 29] == (State(ACC_FINAL_HOME), Symbol(SYM_L), State(ACC_FINAL_HOME), Symbol(SYM_L), Dir::Left)
            &&& x[n + 30] == (State(ACC_FINAL_HOME), Symbol(SYM_D), State(ACC_FINAL_HOME), Symbol(SYM_D), Dir::Left)
            &&& x[n + 31] == (State(ACC_FINAL_HOME), Symbol(SYM_DOLLAR), State(ACCEPT), Symbol(SYM_DOLLAR), Dir::Right)
        }),
{
}

/// The rules that, once an accepting state matched, unmark the accepting
/// states and the current state and go home to halt in the accepting
/// state, as the universal machine's table holds them.
#[verifier::spinoff_prover]
#[verifier::rlimit(100)]
pub proof fn lemma_accept_table(u: &TuringMachineSpec)
    requires
        is_utm_shape(u),
    ensures
        ({
            let t = u.transitions@;
            &&& t[table_index(State(ACCEPT_SEEK_HOME), Symbol(SYM_ZERO))] == Some((State(ACCEPT_SEEK_HOME), Symbol(SYM_ZERO), Dir::Left))
            &&& t[table_index(State(ACCEPT_SEEK_HOME), Symbol(SYM_ONE))] == Some((State(ACCEPT_SEEK_HOME), Symbol(SYM_ONE), Dir::Left))
            &&& t[table_index(State(ACCEPT_SEEK_HOME), Symbol(SYM_X))] == Some((State(ACCEPT_SEEK_HOME), Symbol(SYM_X), Dir::Left))
            &&& t[table_index(State(ACCEPT_SEEK_HOME), Symbol(SYM_Y))] == Some((State(ACCEPT_SEEK_HOME), Symbol(SYM_Y), Dir::Left))
            &&& t[table_index(State(ACCEPT_SEEK_HOME), Symbol(SYM_SEMI))] == Some((State(ACCEPT_SEEK_HOME), Symbol(SYM_SEMI), Dir::Left))
            &&& t[table_index(State(ACCEPT_SEEK_HOME), Symbol(SYM_HASH))] == Some((State(ACC_REST_ACC), Symbol(SYM_HASH), Dir::Right))
            &&& t[table_index(State(ACC_REST_ACC), Symbol(SYM_X))] == Some((State(ACC_REST_ACC), Symbol(SYM_ZERO), Dir::Right))
            &&& t[table_index(State(ACC_REST_ACC), Symbol(SYM_Y))] == Some((State(ACC_REST_ACC), Symbol(SYM_ONE), Dir::Right))
            &&& t[table_index(State(ACC_REST_ACC), Symbol(SYM_ZERO))] == Some((State(ACC_REST_ACC), Symbol(SYM_ZERO), Dir::Right))
            &&& t[table_index(State(ACC_REST_ACC), Symbol(SYM_ONE))] == Some((State(ACC_REST_ACC), Symbol(SYM_ONE), Dir::Right))
            &&& t[table_index(State(ACC_REST_ACC), Symbol(SYM_SEMI))] == Some((State(ACC_REST_ACC), Symbol(SYM_SEMI), Dir::Right))
            &&& t[table_index(State(ACC_REST_ACC), Symbol(SYM_HASH))] == Some((State(ACC_REST_STATE), Symbol(SYM_HASH), Dir::Right))
            &&& t[table_index(State(ACC_REST_STATE), Symbol(SYM_X))] == Some((State(ACC_REST_STATE), Symbol(SYM_ZERO), Dir::Right))
            &&& t[table_index(State(ACC_REST_STATE), Symbol(SYM_Y))] == Some((State(ACC_REST_STATE), Symbol(SYM_ONE), Dir::Right))
            &&& t[table_index(State(ACC_REST_STATE), Symbol(SYM_ZERO))] == Some((State(ACC_REST_STATE), Symbol(SYM_ZERO), Dir::Right))
            &&& t[table_index(State(ACC_REST_STATE), Symbol(SYM_ONE))] == Some((State(ACC_REST_STATE), Symbol(SYM_ONE), Dir::Right))
            &&& t[table_index(State(ACC_REST_STATE), Symbol(SYM_HASH))] == Some((State(ACC_FINAL_HOME), Symbol(SYM_HASH), Dir::Left))
            &&& t[table_index(State(ACC_FINAL_HOME), Symbol(SYM_ZERO))] == Some((State(ACC_FINAL_HOME), Symbol(SYM_ZERO), Dir::Left))
            &&& t[table_index(State(ACC_FINAL_HOME), Symbol(SYM_ONE))] == Some((State(ACC_FINAL_HOME), Symbol(SYM_ONE), Dir::Left))
            &&& t[table_index(State(ACC_FINAL_HOME), Symbol(SYM_X))] == Some((State(ACC_FINAL_HOME), Symbol(SYM_X), Dir::Left))
            &&& t[table_index(State(ACC_FINAL_HOME), Symbol(SYM_Y))] == Some((State(ACC_FINAL_HOME), Symbol(SYM_Y), Dir::Left))
            &&& t[table_index(State(ACC_FINAL_HOME), Symbol(SYM_HASH))] == Some((State(ACC_FINAL_HOME), Symbol(SYM_HASH), Dir::Left))
            &&& t[table_index(State(ACC_FINAL_HOME), Symbol(SYM_PIPE))] == Some((State(ACC_FINAL_HOME), Symbol(SYM_PIPE), Dir::Left))
            &&& t[table_index(State(ACC_FINAL_HOME), Symbol(SYM_SEMI))] == Some((State(ACC_FINAL_HOME), Symbol(SYM_SEMI), Dir::Left))
            &&& t[table_index(State(ACC_FINAL_HOME), Symbol(SYM_COMMA))] == Some((State(ACC_FINAL_HOME), Symbol(SYM_COMMA), Dir::Left))
            &&& t[table_index(State(ACC_FINAL_HOME), Symbol(SYM_CARET))] == Some((State(ACC_FINAL_HOME), Symbol(SYM_CARET), Dir::Left))
            &&& t[table_index(State(ACC_FINAL_HOME), Symbol(SYM_DOT))] == Some((State(ACC_FINAL_HOME), Symbol(SYM_DOT), Dir::Left))
            &&& t[table_index(State(ACC_FINAL_HOME), Symbol(SYM_STAR))] == Some((State(ACC_FINAL_HOME), Symbol(SYM_STAR), Dir::Left))
            &&& t[table_index(State(ACC_FINAL_HOME), Symbol(SYM_GT))] == Some((State(ACC_FINAL_HOME), Symbol(SYM_GT), Dir::Left))
            &&& t[table_index(State(ACC_FINAL_HOME), Symbol(SYM_L))] == Some((State(ACC_FINAL_HOME), Symbol(SYM_L), Dir::Left))
            &&& t[table_index(State(ACC_FINAL_HOME), Symbol(SYM_D))] == Some((State(ACC_FINAL_HOME), Symbol(SYM_D), Dir::Left))
            &&& t[table_index(State(ACC_FINAL_HOME), Symbol(SYM_DOLLAR))] == Some((State(ACCEPT), Symbol(SYM_DOLLAR), Dir::Right))
        }),
{
    lemma_list_ends_with_next_entry_block();
    let acc1 = choose|acc: Seq<ByteRule>|
        utm_rule_list() == reject_rules_from(
            accept_rules_from(
                accept_next_entry_rules_from(
                    accept_bit_mismatch_rules_from(accept_bit_matched_rules_from(check_accept_rules_from(acc))),
                ),
            ),
        );
    let x = accept_next_entry_rules_from(
        accept_bit_mismatch_rules_from(accept_bit_matched_rules_from(check_accept_rules_from(acc1))),
    );
    let y = accept_rules_from(x);
    lemma_accept_block(x);
    lemma_reject_keeps(y);
    let rules = utm_rule_list();
    let n = x.len() as int;
    assert forall|k: int| 0 <= k < 32 implies table_of(rules)[table_index(
        (#[trigger] rules[n + k]).0,
        rules[n + k].1,
    )] == Some((rules[n + k].2, rules[n + k].3, rules[n + k].4)) by {
        lemma_table_holds_rule(rules, n + k);
    }
    assert(rules[n + 0] == y[n + 0]);
    assert(rules[n + 1] == y[n + 1]);
    assert(rules[n + 2] == y[n + 2]);
    assert(rules[n + 3] == y[n + 3]);
    assert(rules[n + 4] == y[n + 4]);
    assert(rules[n + 5] == y[n + 5]);
    assert(rules[n + 6] == y[n + 6]);
    assert(rules[n + 7] == y[n + 7]);
    assert(rules[n + 8] == y[n + 8]);
    assert(rules[n + 9] == y[n + 9]);
    assert(rules[n + 10] == y[n + 10]);
    assert(rules[n + 11] == y[n + 11]);
    assert(rules[n + 12] == y[n + 12]);
    assert(rules[n + 13] == y[n + 13]);
    assert(rules[n + 14] == y[n + 14]);
    assert(rules[n + 15] == y[n + 15]);
    assert(rules[n + 16] == y[n + 16]);
    assert(rules[n + 17] == y[n + 17]);
    assert(rules[n + 18] == y[n + 18]);
    assert(rules[n + 19] == y[n + 19]);
    assert(rules[n + 20] == y[n + 20]);
    assert(rules[n + 21] == y[n + 21]);
    assert(rules[n + 22] == y[n + 22]);
    assert(rules[n + 23] == y[n + 23]);
    assert(rules[n + 24] == y[n + 24]);
    assert(rules[n + 25] == y[n + 25]);
    assert(rules[n + 26] == y[n + 26]);
    assert(rules[n + 27] == y[n + 27]);
    assert(rules[n + 28] == y[n + 28]);
    assert(rules[n + 29] == y[n + 29]);
    assert(rules[n + 30] == y[n + 30]);
    assert(rules[n + 31] == y[n + 31]);
}


/// A symbol that the way home to `$` crosses.
pub open spec fn is_home_symbol(y: Symbol) -> bool {
    ||| y == Symbol(SYM_ZERO)
    ||| y == Symbol(SYM_ONE)
    ||| y == Symbol(SYM_X)
    ||| y == Symbol(SYM_Y)
    ||| y == Symbol(SYM_HASH)
    ||| y == Symbol(SYM_PIPE)
    ||| y == Symbol(SYM_SEMI)
    ||| y == Symbol(SYM_COMMA)
    ||| y == Symbol(SYM_CARET)
    ||| y == Symbol(SYM_DOT)
    ||| y == Symbol(SYM_STAR)
    ||| y == Symbol(SYM_GT)
    ||| y == Symbol(SYM_L)
    ||| y == Symbol(SYM_D)
}

/// Once the current state matched the accepting state at `e`, both codes
/// marked whole, the universal machine unmarks the accepting states and
/// the current state, goes home to the `$` at `h` and halts there in its
/// accepting state: the run ends `Accepted`, the tape exactly as it was
/// before the check, the head right after the `$`.
pub proof fn lemma_byte_accept_phase(
    u: &TuringMachineSpec,
    t: spec_fn(int) -> Symbol,
    h: int,
    a: int,
    q: int,
    e: int,
    sb: nat,
    fuel: nat,
    done: int,
    limit: i64,
) -> (n: nat)
    requires
        is_utm_shape(u),
        accept_check_layout(t, a, q, e, sb),
        1 <= sb,
        h < a - 1,
        t(h) == Symbol(SYM_DOLLAR),
        forall|k: int| h < k < a - 1 ==> is_home_symbol(#[trigger] t(k)),
    ensures
        n == (e + sb - a) + 1 + (q - a) + 1 + sb + 1 + (q + sb - h) + 1,
        run_bytes(
            u,
            compare_tape(t, e, q + 1, sb, sb),
            e + sb - 1,
            State(ACCEPT_SEEK_HOME),
            fuel + 1 + n,
            done,
            limit,
        ) == (RunResult::Accepted((done + n) as i64), t, h + 1, State(ACCEPT)),
{
    lemma_accept_table(u);
    let ash = State(ACCEPT_SEEK_HOME);
    let ra = State(ACC_REST_ACC);
    let rs = State(ACC_REST_STATE);
    let afh = State(ACC_FINAL_HOME);
    let tc = compare_tape(t, e, q + 1, sb, sb);
    let n1 = (e + sb - a) as nat;
    let w = (q - a) as nat;
    let n7 = (q + sb - h) as nat;
    let n = n1 + 1 + w + 1 + sb + 1 + n7 + 1;
    let f = fuel + 1;
    // Back to the start of the accepting states.
    assert forall|k: int| e + sb - 1 - n1 < k <= e + sb - 1 implies u.transitions@[table_index(
        ash,
        #[trigger] tc(k),
    )] == Some((ash, tc(k), Dir::Left)) by {
        assert(is_code_bit(t(k)) || t(k) == Symbol(SYM_SEMI));
    }
    lemma_keeping_scan(u, tc, e + sb - 1, n1, ash, Dir::Left, f + 1 + w + 1 + sb + 1 + n7 + 1, done, limit);
    assert(write_cell(tc, a - 1, Symbol(SYM_HASH)) =~= tc);
    assert(run_bytes(u, tc, a - 1, ash, f + 1 + w + 1 + sb + 1 + n7 + 1, done + n1, limit) == run_bytes(
        u,
        tc,
        a,
        ra,
        f + w + 1 + sb + 1 + n7 + 1,
        done + n1 + 1,
        limit,
    ));
    // Unmark the accepting states.
    assert forall|k: int| a <= k < a + w implies u.transitions@[table_index(ra, #[trigger] tc(k))] == Some(
        (ra, unmarked_bit(tc(k)), Dir::Right),
    ) by {
        assert(is_code_bit(t(k)) || t(k) == Symbol(SYM_SEMI));
    }
    lemma_restoring_scan(u, tc, a, w, ra, f + 1 + sb + 1 + n7 + 1, done + n1 + 1, limit);
    let t2 = mark_cells(t, q + 1, q + 1 + sb);
    assert forall|k: int| #[trigger] unmark_cells(tc, a, a + w)(k) == t2(k) by {
        if a <= k < q {
            assert(is_code_bit(t(k)) || t(k) == Symbol(SYM_SEMI));
        }
    }
    assert(unmark_cells(tc, a, a + w) =~= t2);
    assert(write_cell(t2, q, Symbol(SYM_HASH)) =~= t2);
    assert(run_bytes(u, t2, q, ra, f + 1 + sb + 1 + n7 + 1, done + n1 + 1 + w, limit) == run_bytes(
        u,
        t2,
        q + 1,
        rs,
        f + sb + 1 + n7 + 1,
        done + n1 + w + 2,
        limit,
    ));
    // Unmark the current state.
    assert forall|k: int| q + 1 <= k < q + 1 + sb implies u.transitions@[table_index(rs, #[trigger] t2(k))] == Some(
        (rs, unmarked_bit(t2(k)), Dir::Right),
    ) by {
        assert(is_code_bit(t(k)));
    }
    lemma_restoring_scan(u, t2, q + 1, sb, rs, f + 1 + n7 + 1, done + n1 + w + 2, limit);
    assert forall|k: int| #[trigger] unmark_cells(t2, q + 1, q + 1 + sb)(k) == t(k) by {
        if q + 1 <= k < q + 1 + sb {
            assert(is_code_bit(t(k)));
        }
    }
    assert(unmark_cells(t2, q + 1, q + 1 + sb) =~= t);
    assert(write_cell(t, q + 1 + sb, Symbol(SYM_HASH)) =~= t);
    assert(run_bytes(u, t, q + 1 + sb, rs, f + 1 + n7 + 1, done + n1 + w + 2 + sb, limit) == run_bytes(
        u,
        t,
        q + sb,
        afh,
        f + n7 + 1,
        done + n1 + w + sb + 3,
        limit,
    ));
    // Home.
    assert forall|k: int| q + sb - n7 < k <= q + sb implies u.transitions@[table_index(afh, #[trigger] t(k))] == Some(
        (afh, t(k), Dir::Left),
    ) by {
        if k < a - 1 {
            assert(is_home_symbol(t(k)));
        } else if k == a - 1 || k == q {
        } else if k < q {
            assert(is_code_bit(t(k)) || t(k) == Symbol(SYM_SEMI));
        } else {
            assert(is_code_bit(t(k)));
        }
    }
    lemma_keeping_scan(u, t, q + sb, n7, afh, Dir::Left, f + 1, done + n1 + w + sb + 3, limit);
    assert(write_cell(t, h, Symbol(SYM_DOLLAR)) =~= t);
    assert(run_bytes(u, t, h, afh, f + 1, done + n1 + w + sb + 3 + n7, limit) == run_bytes(
        u,
        t,
        h + 1,
        State(ACCEPT),
        f,
        done + n,
        limit,
    ));
    assert(u.transitions@[table_index(State(ACCEPT), t(h + 1))] is None);
    assert(accepts(u, State(ACCEPT)));
    assert(fuel + 1 + n == f + 1 + w + 1 + sb + 1 + n7 + 1 + n1);
    n
}


/// With two accepting states on the tape, `# first ; second # current #`
/// after the `$` at `h` and a stretch that the way home crosses, a check
/// of the current state that finds it equal to either of them ends the
/// run `Accepted`, the tape exactly as it was, the head right after the
/// `$`.
pub proof fn lemma_byte_two_entries_accept(
    u: &TuringMachineSpec,
    t: spec_fn(int) -> Symbol,
    h: int,
    a: int,
    sb: nat,
    fuel: nat,
    done: int,
    limit: i64,
) -> (n: nat)
    requires
        is_utm_shape(u),
        two_entry_layout(t, a, sb),
        h < a - 1,
        t(h) == Symbol(SYM_DOLLAR),
        forall|k: int| h < k < a - 1 ==> is_home_symbol(#[trigger] t(k)),
    ensures
        same_code(t, a, a + 2 * sb + 2, sb) || same_code(t, a + sb + 1, a + 2 * sb + 2, sb) ==> run_bytes(
            u,
            t,
            a,
            State(CHK_ACC_INIT),
            fuel + 1 + n,
            done,
            limit,
        ) == (RunResult::Accepted((done + n) as i64), t, h + 1, State(ACCEPT)),
{
    let q = a + 2 * sb + 1;
    if same_code(t, a, q + 1, sb) || same_code(t, a + sb + 1, q + 1, sb) {
        let e = if same_code(t, a, q + 1, sb) {
            a
        } else {
            a + sb + 1
        };
        let n2 = ((e + sb - a) + 1 + (q - a) + 1 + sb + 1 + (q + sb - h) + 1) as nat;
        let n1 = lemma_byte_check_two_entries(u, t, a, sb, fuel + 1 + n2, done, limit);
        assert(accept_check_layout(t, a, q, e, sb)) by {
            assert forall|k: int| a <= k < q implies is_code_bit(#[trigger] t(k)) || t(k) == Symbol(SYM_SEMI) by {
                if k < a + sb {
                } else if k == a + sb {
                } else {
                }
            }
        }
        lemma_byte_accept_phase(u, t, h, a, q, e, sb, fuel, done + n1, limit);
        assert(fuel + 1 + n2 + n1 == fuel + 1 + (n1 + n2));
        n1 + n2
    } else {
        0
    }
}


/// When bit `j` of the accepting state at `e` differed from the current
/// state's, the first `j` bits of both marked, the universal machine goes
/// back over the marked bits of the current state, unmarks them, and goes
/// back over the current state and all accepting states to the first of
/// them, where it starts restoring the accepting states; the accepting
/// state at `e` keeps its marks until then.
pub proof fn lemma_byte_mismatch_back_to_start(
    u: &TuringMachineSpec,
    t: spec_fn(int) -> Symbol,
    a: int,
    q: int,
    e: int,
    sb: nat,
    j: nat,
    fuel: nat,
    done: int,
    limit: i64,
)
    requires
        is_utm_shape(u),
        accept_check_layout(t, a, q, e, sb),
        1 <= j <= sb,
    ensures
        ({
            let n = j + 2 * sb + (q - a) + 3;
            run_bytes(u, compare_tape(t, e, q + 1, j, j), q + j - 1, State(CHK_ACC_FAIL_BIT), (fuel + n) as nat, done, limit)
                == run_bytes(u, mark_cells(t, e, e + j), a, State(CHK_ACC_DO_REST), fuel, done + n, limit)
        }),
{
    lemma_mismatch_table(u);
    let fb = State(CHK_ACC_FAIL_BIT);
    let rs = State(CHK_ACC_REST_STATE);
    let ba = State(CHK_ACC_BACK2ACC);
    let ia = State(CHK_ACC_INTO_ACC);
    let dr = State(CHK_ACC_DO_REST);
    let ta = mark_cells(t, e, e + j);
    let t0 = mark_cells(ta, q + 1, q + 1 + j);
    let w = (q - a) as nat;
    let f = fuel;
    let d = done + j + 2 * sb + w + 3;
    // Back over the marked bits of the current state.
    let f4 = f + w + sb + sb + 4;
    assert forall|k: int| q < k <= q + j - 1 implies u.transitions@[table_index(fb, #[trigger] t0(k))] == Some(
        (fb, t0(k), Dir::Left),
    ) by {
        assert(is_code_bit(t(k)));
    }
    lemma_keeping_scan(u, t0, q + j - 1, (j - 1) as nat, fb, Dir::Left, f4, done, limit);
    // Unmark the current state.
    assert(t0(q) == Symbol(SYM_HASH));
    assert(write_cell(t0, q, Symbol(SYM_HASH)) =~= t0);
    let f3 = f + w + sb + 3;
    assert(run_bytes(u, t0, q, fb, f4, done + j - 1, limit) == run_bytes(u, t0, q + 1, rs, f3 + sb, done + j, limit));
    assert forall|k: int| q + 1 <= k < q + 1 + sb implies u.transitions@[table_index(rs, #[trigger] t0(k))] == Some(
        (rs, unmarked_bit(t0(k)), Dir::Right),
    ) by {
        assert(is_code_bit(t(k)));
    }
    lemma_restoring_scan(u, t0, q + 1, sb, rs, f3, done + j, limit);
    assert forall|k: int| #[trigger] unmark_cells(t0, q + 1, q + 1 + sb)(k) == ta(k) by {
        if q + 1 <= k < q + 1 + sb {
            assert(is_code_bit(t(k)));
        }
    }
    assert(unmark_cells(t0, q + 1, q + 1 + sb) =~= ta);
    // Back over the current state to the accepting states.
    let f2 = f + w + 2;
    assert(write_cell(ta, q + 1 + sb, Symbol(SYM_HASH)) =~= ta);
    assert(run_bytes(u, ta, q + 1 + sb, rs, f3, done + j + sb, limit) == run_bytes(
        u,
        ta,
        q + sb,
        ba,
        f2 + sb,
        done + j + sb + 1,
        limit,
    ));
    assert forall|k: int| q + sb - sb < k <= q + sb implies u.transitions@[table_index(ba, #[trigger] ta(k))] == Some(
        (ba, ta(k), Dir::Left),
    ) by {
        assert(is_code_bit(t(k)));
    }
    lemma_keeping_scan(u, ta, q + sb, sb, ba, Dir::Left, f2, done + j + sb + 1, limit);
    assert(write_cell(ta, q, Symbol(SYM_HASH)) =~= ta);
    assert(run_bytes(u, ta, q, ba, f2, done + j + 2 * sb + 1, limit) == run_bytes(
        u,
        ta,
        q - 1,
        ia,
        f + 1 + w,
        done + j + 2 * sb + 2,
        limit,
    ));
    // Back over the accepting states.
    assert forall|k: int| q - 1 - w < k <= q - 1 implies u.transitions@[table_index(ia, #[trigger] ta(k))] == Some(
        (ia, ta(k), Dir::Left),
    ) by {
        assert(is_code_bit(t(k)) || t(k) == Symbol(SYM_SEMI));
    }
    lemma_keeping_scan(u, ta, q - 1, w, ia, Dir::Left, f + 1, done + j + 2 * sb + 2, limit);
    assert(write_cell(ta, a - 1, Symbol(SYM_HASH)) =~= ta);
    assert(run_bytes(u, ta, a - 1, ia, f + 1, d - 1, limit) == run_bytes(u, ta, a, dr, f, d, limit));
}

/// What the rules of `reject_rules_from` come to, by position after the rules
/// before them.
proof fn lemma_reject_block(acc: Seq<ByteRule>)
    ensures
        ({
            let x = reject_rules_from(acc);
            let n = acc.len() as int;
            &&& x.len() == n + 32
            &&& forall|i: int| 0 <= i < n ==> #[trigger] x[i] == acc[i]
            &&& x[n + 0] == (State(REJECT_SEEK_HOME), Symbol(SYM_ZERO), State(REJECT_SEEK_HOME), Symbol(SYM_ZERO), Dir::Left)
            &&& x[n + 1] == (State(REJECT_SEEK_HOME), Symbol(SYM_ONE), State(REJECT_SEEK_HOME), Symbol(SYM_ONE), Dir::Left)
            &&& x[n + 2] == (State(REJECT_SEEK_HOME), Symbol(SYM_X), State(REJECT_SEEK_HOME), Symbol(SYM_X), Dir::Left)
            &&& x[n + 3] == (State(REJECT_SEEK_HOME), Symbol(SYM_Y), State(REJECT_SEEK_HOME), Symbol(SYM_Y), Dir::Left)
            &&& x[n + 4] == (State(REJECT_SEEK_HOME), Symbol(SYM_SEMI), State(REJECT_SEEK_HOME), Symbol(SYM_SEMI), Dir::Left)
            &&& x[n + 5] == (State(REJECT_SEEK_HOME), Symbol(SYM_HASH), State(REJ_REST_ACC), Symbol(SYM_HASH), Dir::Right)
            &&& x[n + 6] == (State(REJ_REST_ACC), Symbol(SYM_X), State(REJ_REST_ACC), Symbol(SYM_ZERO), Dir::Right)
            &&& x[n + 7] == (State(REJ_REST_ACC), Symbol(SYM_Y), State(REJ_REST_ACC), Symbol(SYM_ONE), Dir::Right)
            &&& x[n + 8] == (State(REJ_REST_ACC), Symbol(SYM_ZERO), State(REJ_REST_ACC), Symbol(SYM_ZERO), Dir::Right)
            &&& x[n + 9] == (State(REJ_REST_ACC), Symbol(SYM_ONE), State(REJ_REST_ACC), Symbol(SYM_ONE), Dir::Right)
            &&& x[n + 10] == (State(REJ_REST_ACC), Symbol(SYM_SEMI), State(REJ_REST_ACC), Symbol(SYM_SEMI), Dir::Right)
            &&& x[n + 11] == (State(REJ_REST_ACC), Symbol(SYM_HASH), State(REJ_REST_STATE), Symbol(SYM_HASH), Dir::Right)
            &&& x[n + 12] == (State(REJ_REST_STATE), Symbol(SYM_X), State(REJ_REST_STATE), Symbol(SYM_ZERO), Dir::Right)
            &&& x[n + 13] == (State(REJ_REST_STATE), Symbol(SYM_Y), State(REJ_REST_STATE), Symbol(SYM_ONE), Dir::Right)
            &&& x[n + 14] == (State(REJ_REST_STATE), Symbol(SYM_ZERO), State(REJ_REST_STATE), Symbol(SYM_ZERO), Dir::Right)
            &&& x[n + 15] == (State(REJ_REST_STATE), Symbol(SYM_ONE), State(REJ_REST_STATE), Symbol(SYM_ONE), Dir::Right)
            &&& x[n + 16] == (State(REJ_REST_STATE), Symbol(SYM_HASH), State(REJ_FINAL_HOME), Symbol(SYM_HASH), Dir::Left)
            &&& x[n + 17] == (State(REJ_FINAL_HOME), Symbol(SYM_ZERO), State(REJ_FINAL_HOME), Symbol(SYM_ZERO), Dir::Left)
            &&& x[n + 18] == (State(REJ_FINAL_HOME), Symbol(SYM_ONE), State(REJ_FINAL_HOME), Symbol(SYM_ONE), Dir::Left)
            &&& x[n + 19] == (State(REJ_FINAL_HOME), Symbol(SYM_X), State(REJ_FINAL_HOME), Symbol(SYM_X), Dir::Left)
            &&& x[n + 20] == (State(REJ_FINAL_HOME), Symbol(SYM_Y), State(REJ_FINAL_HOME), Symbol(SYM_Y), Dir::Left)
            &&& x[n + 21] == (State(REJ_FINAL_HOME), Symbol(SYM_HASH), State(REJ_FINAL_HOME), Symbol(SYM_HASH), Dir::Left)
            &&& x[n + 22] == (State(REJ_FINAL_HOME), Symbol(SYM_PIPE), State(REJ_FINAL_HOME), Symbol(SYM_PIPE), Dir::Left)
            &&& x[n + 23] == (State(REJ_FINAL_HOME), Symbol(SYM_SEMI), State(REJ_FINAL_HOME), Symbol(SYM_SEMI), Dir::Left)
            &&& x[n + 24] == (State(REJ_FINAL_HOME), Symbol(SYM_COMMA), State(REJ_FINAL_HOME), Symbol(SYM_COMMA), Dir::Left)
            &&& x[n + 25] == (State(REJ_FINAL_HOME), Symbol(SYM_CARET), State(REJ_FINAL_HOME), Symbol(SYM_CARET), Dir::Left)
            &&& x[n + 26] == (State(REJ_FINAL_HOME), Symbol(SYM_DOT), State(REJ_FINAL_HOME), Symbol(SYM_DOT), Dir::Left)
            &&& x[n + 27] == (State(REJ_FINAL_HOME), Symbol(SYM_STAR), State(REJ_FINAL_HOME), Symbol(SYM_STAR), Dir::Left)
            &&& x[n + 28] == (State(REJ_FINAL_HOME), Symbol(SYM_GT), State(REJ_FINAL_HOME), Symbol(SYM_GT), Dir::Left)
            &&& x[n + 29] == (State(REJ_FINAL_HOME), Symbol(SYM_L), State(REJ_FINAL_HOME), Symbol(SYM_L), Dir::Left)
            &&& x[n + 30] == (State(REJ_FINAL_HOME), Symbol(SYM_D), State(REJ_FINAL_HOME), Symbol(SYM_D), Dir::Left)
            &&& x[n + 31] == (State(REJ_FINAL_HOME), Symbol(SYM_DOLLAR), State(REJECT), Symbol(SYM_DOLLAR), Dir::Right)
        }),
{
}

/// The rules that, once no accepting state matched, unmark the accepting
/// states and the current state and go home to halt in the rejecting
/// state, as the universal machine's table holds them.
#[verifier::spinoff_prover]
#[verifier::rlimit(100)]
pub proof fn lemma_reject_table(u: &TuringMachineSpec)
    requires
        is_utm_shape(u),
    ensures
        ({
            let t = u.transitions@;
            &&& t[table_index(State(REJECT_SEEK_HOME), Symbol(SYM_ZERO))] == Some((State(REJECT_SEEK_HOME), Symbol(SYM_ZERO), Dir::Left))
            &&& t[table_index(State(REJECT_SEEK_HOME), Symbol(SYM_ONE))] == Some((State(REJECT_SEEK_HOME), Symbol(SYM_ONE), Dir::Left))
            &&& t[table_index(State(REJECT_SEEK_HOME), Symbol(SYM_X))] == Some((State(REJECT_SEEK_HOME), Symbol(SYM_X), Dir::Left))
            &&& t[table_index(State(REJECT_SEEK_HOME), Symbol(SYM_Y))] == Some((State(REJECT_SEEK_HOME), Symbol(SYM_Y), Dir::Left))
            &&& t[table_index(State(REJECT_SEEK_HOME), Symbol(SYM_SEMI))] == Some((State(REJECT_SEEK_HOME), Symbol(SYM_SEMI), Dir::Left))
            &&& t[table_index(State(REJECT_SEEK_HOME), Symbol(SYM_HASH))] == Some((State(REJ_REST_ACC), Symbol(SYM_HASH), Dir::Right))
            &&& t[table_index(State(REJ_REST_ACC), Symbol(SYM_X))] == Some((State(REJ_REST_ACC), Symbol(SYM_ZERO), Dir::Right))
            &&& t[table_index(State(REJ_REST_ACC), Symbol(SYM_Y))] == Some((State(REJ_REST_ACC), Symbol(SYM_ONE), Dir::Right))
            &&& t[table_index(State(REJ_REST_ACC), Symbol(SYM_ZERO))] == Some((State(REJ_REST_ACC), Symbol(SYM_ZERO), Dir::Right))
            &&& t[table_index(State(REJ_REST_ACC), Symbol(SYM_ONE))] == Some((State(REJ_REST_ACC), Symbol(SYM_ONE), Dir::Right))
            &&& t[table_index(State(REJ_REST_ACC), Symbol(SYM_SEMI))] == Some((State(REJ_REST_ACC), Symbol(SYM_SEMI), Dir::Right))
            &&& t[table_index(State(REJ_REST_ACC), Symbol(SYM_HASH))] == Some((State(REJ_REST_STATE), Symbol(SYM_HASH), Dir::Right))
            &&& t[table_index(State(REJ_REST_STATE), Symbol(SYM_X))] == Some((State(REJ_REST_STATE), Symbol(SYM_ZERO), Dir::Right))
            &&& t[table_index(State(REJ_REST_STATE), Symbol(SYM_Y))] == Some((State(REJ_REST_STATE), Symbol(SYM_ONE), Dir::Right))
            &&& t[table_index(State(REJ_REST_STATE), Symbol(SYM_ZERO))] == Some((State(REJ_REST_STATE), Symbol(SYM_ZERO), Dir::Right))
            &&& t[table_index(State(REJ_REST_STATE), Symbol(SYM_ONE))] == Some((State(REJ_REST_STATE), Symbol(SYM_ONE), Dir::Right))
            &&& t[table_index(State(REJ_REST_STATE), Symbol(SYM_HASH))] == Some((State(REJ_FINAL_HOME), Symbol(SYM_HASH), Dir::Left))
            &&& t[table_index(State(REJ_FINAL_HOME), Symbol(SYM_ZERO))] == Some((State(REJ_FINAL_HOME), Symbol(SYM_ZERO), Dir::Left))
            &&& t[table_index(State(REJ_FINAL_HOME), Symbol(SYM_ONE))] == Some((State(REJ_FINAL_HOME), Symbol(SYM_ONE), Dir::Left))
            &&& t[table_index(State(REJ_FINAL_HOME), Symbol(SYM_X))] == Some((State(REJ_FINAL_HOME), Symbol(SYM_X), Dir::Left))
            &&& t[table_index(State(REJ_FINAL_HOME), Symbol(SYM_Y))] == Some((State(REJ_FINAL_HOME), Symbol(SYM_Y), Dir::Left))
            &&& t[table_index(State(REJ_FINAL_HOME), Symbol(SYM_HASH))] == Some((State(REJ_FINAL_HOME), Symbol(SYM_HASH), Dir::Left))
            &&& t[table_index(State(REJ_FINAL_HOME), Symbol(SYM_PIPE))] == Some((State(REJ_FINAL_HOME), Symbol(SYM_PIPE), Dir::Left))
            &&& t[table_index(State(REJ_FINAL_HOME), Symbol(SYM_SEMI))] == Some((State(REJ_FINAL_HOME), Symbol(SYM_SEMI), Dir::Left))
            &&& t[table_index(State(REJ_FINAL_HOME), Symbol(SYM_COMMA))] == Some((State(REJ_FINAL_HOME), Symbol(SYM_COMMA), Dir::Left))
            &&& t[table_index(State(REJ_FINAL_HOME), Symbol(SYM_CARET))] == Some((State(REJ_FINAL_HOME), Symbol(SYM_CARET), Dir::Left))
            &&& t[table_index(State(REJ_FINAL_HOME), Symbol(SYM_DOT))] == Some((State(REJ_FINAL_HOME), Symbol(SYM_DOT), Dir::Left))
            &&& t[table_index(State(REJ_FINAL_HOME), Symbol(SYM_STAR))] == Some((State(REJ_FINAL_HOME), Symbol(SYM_STAR), Dir::Left))
            &&& t[table_index(State(REJ_FINAL_HOME), Symbol(SYM_GT))] == Some((State(REJ_FINAL_HOME), Symbol(SYM_GT), Dir::Left))
            &&& t[table_index(State(REJ_FINAL_HOME), Symbol(SYM_L))] == Some((State(REJ_FINAL_HOME), Symbol(SYM_L), Dir::Left))
            &&& t[table_index(State(REJ_FINAL_HOME), Symbol(SYM_D))] == Some((State(REJ_FINAL_HOME), Symbol(SYM_D), Dir::Left))
            &&& t[table_index(State(REJ_FINAL_HOME), Symbol(SYM_DOLLAR))] == Some((State(REJECT), Symbol(SYM_DOLLAR), Dir::Right))
        }),
{
    lemma_list_ends_with_next_entry_block();
    let acc1 = choose|acc: Seq<ByteRule>|
        utm_rule_list() == reject_rules_from(
            accept_rules_from(
                accept_next_entry_rules_from(
                    accept_bit_mismatch_rules_from(accept_bit_matched_rules_from(check_accept_rules_from(acc))),
                ),
            ),
        );
    let y = accept_rules_from(
        accept_next_entry_rules_from(
            accept_bit_mismatch_rules_from(accept_bit_matched_rules_from(check_accept_rules_from(acc1))),
        ),
    );
    lemma_reject_block(y);
    let rules = utm_rule_list();
    let n = y.len() as int;
    assert forall|k: int| 0 <= k < 32 implies table_of(rules)[table_index(
        (#[trigger] rules[n + k]).0,
        rules[n + k].1,
    )] == Some((rules[n + k].2, rules[n + k].3, rules[n + k].4)) by {
        lemma_table_holds_rule(rules, n + k);
    }
    assert(rules[n + 0] == rules[n + 0]);
    assert(rules[n + 1] == rules[n + 1]);
    assert(rules[n + 2] == rules[n + 2]);
    assert(rules[n + 3] == rules[n + 3]);
    assert(rules[n + 4] == rules[n + 4]);
    assert(rules[n + 5] == rules[n + 5]);
    assert(rules[n + 6] == rules[n + 6]);
    assert(rules[n + 7] == rules[n + 7]);
    assert(rules[n + 8] == rules[n + 8]);
    assert(rules[n + 9] == rules[n + 9]);
    assert(rules[n + 10] == rules[n + 10]);
    assert(rules[n + 11] == rules[n + 11]);
    assert(rules[n + 12] == rules[n + 12]);
    assert(rules[n + 13] == rules[n + 13]);
    assert(rules[n + 14] == rules[n + 14]);
    assert(rules[n + 15] == rules[n + 15]);
    assert(rules[n + 16] == rules[n + 16]);
    assert(rules[n + 17] == rules[n + 17]);
    assert(rules[n + 18] == rules[n + 18]);
    assert(rules[n + 19] == rules[n + 19]);
    assert(rules[n + 20] == rules[n + 20]);
    assert(rules[n + 21] == rules[n + 21]);
    assert(rules[n + 22] == rules[n + 22]);
    assert(rules[n + 23] == rules[n + 23]);
    assert(rules[n + 24] == rules[n + 24]);
    assert(rules[n + 25] == rules[n + 25]);
    assert(rules[n + 26] == rules[n + 26]);
    assert(rules[n + 27] == rules[n + 27]);
    assert(rules[n + 28] == rules[n + 28]);
    assert(rules[n + 29] == rules[n + 29]);
    assert(rules[n + 30] == rules[n + 30]);
    assert(rules[n + 31] == rules[n + 31]);
}


/// Once no accepting state matched, the accepting states and the current
/// state unmarked and the machine just left of the `#` that ends the
/// accepting states, it unmarks both again, goes home to the `$` at `h`
/// and halts there in its rejecting state: the run ends `Rejected`, the
/// tape exactly as it was before the check, the head right after the `$`.
pub proof fn lemma_byte_reject_phase(
    u: &TuringMachineSpec,
    t: spec_fn(int) -> Symbol,
    h: int,
    a: int,
    q: int,
    sb: nat,
    fuel: nat,
    done: int,
    limit: i64,
) -> (n: nat)
    requires
        is_utm_shape(u),
        accept_check_layout(t, a, q, a, sb),
        1 <= sb,
        h < a - 1,
        t(h) == Symbol(SYM_DOLLAR),
        forall|k: int| h < k < a - 1 ==> is_home_symbol(#[trigger] t(k)),
    ensures
        n == (q - a) + 1 + (q - a) + 1 + sb + 1 + (q + sb - h) + 1,
        run_bytes(u, t, q - 1, State(REJECT_SEEK_HOME), fuel + 1 + n, done, limit) == (
            RunResult::Rejected((done + n) as i64),
            t,
            h + 1,
            State(REJECT),
        ),
{
    lemma_reject_table(u);
    let rsh = State(REJECT_SEEK_HOME);
    let ra = State(REJ_REST_ACC);
    let rs = State(REJ_REST_STATE);
    let rfh = State(REJ_FINAL_HOME);
    let w = (q - a) as nat;
    let n7 = (q + sb - h) as nat;
    let n = w + 1 + w + 1 + sb + 1 + n7 + 1;
    let f = fuel + 1;
    assert forall|k: int| q - 1 - w < k <= q - 1 implies u.transitions@[table_index(rsh, #[trigger] t(k))] == Some(
        (rsh, t(k), Dir::Left),
    ) by {
        assert(is_code_bit(t(k)) || t(k) == Symbol(SYM_SEMI));
    }
    lemma_keeping_scan(u, t, q - 1, w, rsh, Dir::Left, f + 1 + w + 1 + sb + 1 + n7 + 1, done, limit);
    assert(write_cell(t, a - 1, Symbol(SYM_HASH)) =~= t);
    assert(run_bytes(u, t, a - 1, rsh, f + 1 + w + 1 + sb + 1 + n7 + 1, done + w, limit) == run_bytes(
        u,
        t,
        a,
        ra,
        f + w + 1 + sb + 1 + n7 + 1,
        done + w + 1,
        limit,
    ));
    assert forall|k: int| a <= k < a + w implies u.transitions@[table_index(ra, #[trigger] t(k))] == Some(
        (ra, unmarked_bit(t(k)), Dir::Right),
    ) by {
        assert(is_code_bit(t(k)) || t(k) == Symbol(SYM_SEMI));
    }
    lemma_restoring_scan(u, t, a, w, ra, f + 1 + sb + 1 + n7 + 1, done + w + 1, limit);
    assert forall|k: int| #[trigger] unmark_cells(t, a, a + w)(k) == t(k) by {
        if a <= k < q {
            assert(is_code_bit(t(k)) || t(k) == Symbol(SYM_SEMI));
        }
    }
    assert(unmark_cells(t, a, a + w) =~= t);
    assert(write_cell(t, q, Symbol(SYM_HASH)) =~= t);
    assert(run_bytes(u, t, q, ra, f + 1 + sb + 1 + n7 + 1, done + w + 1 + w, limit) == run_bytes(
        u,
        t,
        q + 1,
        rs,
        f + sb + 1 + n7 + 1,
        done + w + w + 2,
        limit,
    ));
    assert forall|k: int| q + 1 <= k < q + 1 + sb implies u.transitions@[table_index(rs, #[trigger] t(k))] == Some(
        (rs, unmarked_bit(t(k)), Dir::Right),
    ) by {
        assert(is_code_bit(t(k)));
    }
    lemma_restoring_scan(u, t, q + 1, sb, rs, f + 1 + n7 + 1, done + w + w + 2, limit);
    assert forall|k: int| #[trigger] unmark_cells(t, q + 1, q + 1 + sb)(k) == t(k) by {
        if q + 1 <= k < q + 1 + sb {
            assert(is_code_bit(t(k)));
        }
    }
    assert(unmark_cells(t, q + 1, q + 1 + sb) =~= t);
    assert(write_cell(t, q + 1 + sb, Symbol(SYM_HASH)) =~= t);
    assert(run_bytes(u, t, q + 1 + sb, rs, f + 1 + n7 + 1, done + w + w + 2 + sb, limit) == run_bytes(
        u,
        t,
        q + sb,
        rfh,
        f + n7 + 1,
        done + w + w + sb + 3,
        limit,
    ));
    assert forall|k: int| q + sb - n7 < k <= q + sb implies u.transitions@[table_index(rfh, #[trigger] t(k))] == Some(
        (rfh, t(k), Dir::Left),
    ) by {
        if k < a - 1 {
            assert(is_home_symbol(t(k)));
        } else if k == a - 1 || k == q {
        } else if k < q {
            assert(is_code_bit(t(k)) || t(k) == Symbol(SYM_SEMI));
        } else {
            assert(is_code_bit(t(k)));
        }
    }
    lemma_keeping_scan(u, t, q + sb, n7, rfh, Dir::Left, f + 1, done + w + w + sb + 3, limit);
    assert(write_cell(t, h, Symbol(SYM_DOLLAR)) =~= t);
    assert(run_bytes(u, t, h, rfh, f + 1, done + w + w + sb + 3 + n7, limit) == run_bytes(
        u,
        t,
        h + 1,
        State(REJECT),
        f,
        done + n,
        limit,
    ));
    assert(u.transitions@[table_index(State(ACCEPT), t(h + 1))] is None);
    assert(u.transitions@[table_index(State(REJECT), t(h + 1))] is None);
    assert(!accepts(u, State(REJECT)));
    assert(fuel + 1 + n == f + 1 + w + 1 + sb + 1 + n7 + 1 + w);
    n
}


/// With one accepting state on the tape, `# accepting # current #` after
/// the `$` at `h` and a stretch that the way home crosses, the check of
/// the current state ends the run `Accepted` exactly where the current
/// state equals the accepting one, and `Rejected` otherwise; either way
/// the tape is left exactly as it was and the head right after the `$`.
pub proof fn lemma_byte_one_entry_check(
    u: &TuringMachineSpec,
    t: spec_fn(int) -> Symbol,
    h: int,
    a: int,
    sb: nat,
    fuel: nat,
    done: int,
    limit: i64,
) -> (n: nat)
    requires
        is_utm_shape(u),
        1 <= sb,
        accept_check_layout(t, a, a + sb, a, sb),
        h < a - 1,
        t(h) == Symbol(SYM_DOLLAR),
        forall|k: int| h < k < a - 1 ==> is_home_symbol(#[trigger] t(k)),
    ensures
        run_bytes(u, t, a, State(CHK_ACC_INIT), fuel + 1 + n, done, limit) == (
            if same_code(t, a, a + sb + 1, sb) {
                RunResult::Accepted((done + n) as i64)
            } else {
                RunResult::Rejected((done + n) as i64)
            },
            t,
            h + 1,
            if same_code(t, a, a + sb + 1, sb) {
                State(ACCEPT)
            } else {
                State(REJECT)
            },
        ),
{
    let q = a + sb;
    if same_code(t, a, q + 1, sb) {
        let n2 = ((a + sb - a) + 1 + (q - a) + 1 + sb + 1 + (q + sb - h) + 1) as nat;
        let n1 = lemma_byte_check_first_entry(u, t, a, q, sb, fuel + 1 + n2, done, limit);
        lemma_byte_accept_phase(u, t, h, a, q, a, sb, fuel, done + n1, limit);
        assert(fuel + 1 + n2 + n1 == fuel + 1 + (n1 + n2));
        n1 + n2
    } else {
        lemma_compare_bit_table(u);
        lemma_next_entry_table(u);
        let nr = ((q - a) + 1 + (q - a) + 1 + sb + 1 + (q + sb - h) + 1) as nat;
        let fr = fuel + 1 + nr;
        // The comparison finds the first difference.
        let probe = lemma_byte_compare_entry(u, t, a, q, a, sb, 0, 0, done + 1, limit);
        let m = probe.1;
        if m == sb {
            assert forall|k: int| 0 <= k < sb implies #[trigger] agrees(t, a, q + 1, k) by {}
            assert(false);
        }
        let j = m + 1;
        let nb = (j + 2 * sb + (q - a) + 3) as nat;
        let nc = probe.0;
        let d0 = done + 1 + nc + nb;
        // Restore the accepting state; at the `#` after it, reject.
        let tm = mark_cells(t, a, a + j);
        let t1 = write_cell(tm, a, t(a));
        assert(is_code_bit(t(a)));
        assert(run_bytes(u, tm, a, State(CHK_ACC_DO_REST), fr + sb + 1, d0, limit) == run_bytes(
            u,
            t1,
            a + 1,
            State(CHK_ACC_DO_REST2),
            (fr + 1 + (sb - 1)) as nat,
            d0 + 1,
            limit,
        ));
        assert forall|k: int| a + 1 <= k < a + 1 + (sb - 1) implies u.transitions@[table_index(
            State(CHK_ACC_DO_REST2),
            #[trigger] t1(k),
        )] == Some((State(CHK_ACC_DO_REST2), unmarked_bit(t1(k)), Dir::Right)) by {
            assert(is_code_bit(t(k)));
        }
        lemma_restoring_scan(u, t1, a + 1, (sb - 1) as nat, State(CHK_ACC_DO_REST2), fr + 1, d0 + 1, limit);
        assert forall|k: int| #[trigger] unmark_cells(t1, a + 1, a + sb)(k) == t(k) by {
            if a <= k < a + sb {
                assert(is_code_bit(t(k)));
            }
        }
        assert(unmark_cells(t1, a + 1, a + sb) =~= t);
        assert(write_cell(t, q, Symbol(SYM_HASH)) =~= t);
        assert(run_bytes(u, t, q, State(CHK_ACC_DO_REST2), fr + 1, d0 + sb, limit) == run_bytes(
            u,
            t,
            q - 1,
            State(REJECT_SEEK_HOME),
            fr,
            d0 + sb + 1,
            limit,
        ));
        lemma_byte_reject_phase(u, t, h, a, q, sb, fuel, d0 + sb + 1, limit);
        // Back from the difference to the accepting state.
        lemma_byte_mismatch_back_to_start(u, t, a, q, a, sb, j, fr + sb + 1, done + 1 + nc, limit);
        // The comparison itself.
        let r = lemma_byte_compare_entry(u, t, a, q, a, sb, 0, fr + sb + 1 + nb, done + 1, limit);
        assert(r.0 == nc && r.1 == m);
        let t0 = compare_tape(t, a, q + 1, 1, 0);
        assert(write_cell(t, a, marked_bit(t(a))) =~= t0);
        assert(run_bytes(u, t, a, State(CHK_ACC_INIT), fr + sb + 1 + nb + nc + 1, done, limit) == run_bytes(
            u,
            t0,
            a + 1,
            carry_state(t(a)),
            fr + sb + 1 + nb + nc,
            done + 1,
            limit,
        ));
        let n = 1 + nc + nb + sb + 1 + nr;
        assert(fuel + 1 + n == fr + sb + 1 + nb + nc + 1);
        n
    }
}


/// The universal machine's state that starts on the next accepting state
/// has rules only for a bit and for the `#` that ends the accepting
/// states.
pub open spec fn next_entry_keys_only(m: &TuringMachineSpec) -> bool {
    forall|y: Symbol|
        #[trigger] m.transitions@[table_index(State(CHK_ACC_NEXT_ENTRY), y)] is Some ==> y == Symbol(SYM_ZERO) || y
            == Symbol(SYM_ONE) || y == Symbol(SYM_HASH)
}

/// Where the blocks before the restore block hold rules of earlier blocks
/// only, the table of the whole list has rules for the state that starts
/// on the next accepting state only for a bit and for `#`.
pub proof fn lemma_next_entry_keys(rules: Seq<ByteRule>, p: Seq<ByteRule>)
    requires
        built_before(p, 25),
        rules == reject_rules_from(accept_rules_from(accept_next_entry_rules_from(p))),
    ensures
        forall|y: Symbol|
            #[trigger] table_of(rules)[table_index(State(CHK_ACC_NEXT_ENTRY), y)] is Some ==> y == Symbol(SYM_ZERO)
                || y == Symbol(SYM_ONE) || y == Symbol(SYM_HASH),
{
    let ne = State(CHK_ACC_NEXT_ENTRY);
    let x = accept_next_entry_rules_from(p);
    let y2 = accept_rules_from(x);
    lemma_next_entry_block(p);
    lemma_accept_block(x);
    lemma_reject_block(y2);
    assert forall|y: Symbol| #[trigger] table_of(rules)[table_index(ne, y)] is Some implies y == Symbol(SYM_ZERO)
        || y == Symbol(SYM_ONE) || y == Symbol(SYM_HASH) by {
        lemma_table_entry_has_rule(rules, ne, y);
        let i = choose|i: int| 0 <= i < rules.len() && (#[trigger] rules[i]).0 == ne && rules[i].1 == y;
        let n = p.len() as int;
        if i < n {
            assert(rules[i] == p[i]);
            assert(block_of(p[i].0) < 25);
            assert(block_of(ne) == 25);
        } else if i < n + 15 {
            assert(rules[i] == x[i]);
            assert(i == n || i == n + 1 || i == n + 2 || i == n + 3 || i == n + 4 || i == n + 5 || i == n + 6 || i
                == n + 7 || i == n + 8 || i == n + 9 || i == n + 10 || i == n + 11 || i == n + 12 || i == n + 13 || i
                == n + 14);
        } else if i < n + 47 {
            assert(rules[i] == y2[i]);
            let k = i - (n + 15);
            assert(0 <= k < 32);
            assert(y2[(n + 15) + k].0 != ne);
        } else {
            let k = i - (n + 47);
            assert(0 <= k < 32);
            assert(rules[(n + 47) + k].0 != ne);
        }
    }
}


/// With two accepting states on the tape and the current state equal to
/// neither, the check ends the run `Rejected`: after the second failed,
/// the machine restores the first, crosses the `;` and halts on the
/// second, whose compared bits it leaves marked, in the state that starts
/// on the next accepting state.
pub proof fn lemma_byte_two_entries_reject(
    u: &TuringMachineSpec,
    t: spec_fn(int) -> Symbol,
    a: int,
    sb: nat,
    fuel: nat,
    done: int,
    limit: i64,
) -> (n: nat)
    requires
        is_utm_shape(u),
        next_entry_keys_only(u),
        two_entry_layout(t, a, sb),
    ensures
        ({
            let q = a + 2 * sb + 1;
            let e2 = a + sb + 1;
            let j2 = first_difference(t, e2, q + 1, sb, 0) + 1;
            !same_code(t, a, q + 1, sb) && !same_code(t, e2, q + 1, sb) ==> run_bytes(
                u,
                t,
                a,
                State(CHK_ACC_INIT),
                fuel + 1 + n,
                done,
                limit,
            ) == (RunResult::Rejected((done + n) as i64), mark_cells(t, e2, e2 + j2), e2, State(CHK_ACC_NEXT_ENTRY))
        }),
{
    let q = a + 2 * sb + 1;
    let e2 = a + sb + 1;
    if !same_code(t, a, q + 1, sb) && !same_code(t, e2, q + 1, sb) {
        assert(accept_check_layout(t, a, q, a, sb)) by {
            assert forall|k: int| a <= k < q implies is_code_bit(#[trigger] t(k)) || t(k) == Symbol(SYM_SEMI) by {
                if k < a + sb {
                } else if k == a + sb {
                } else {
                }
            }
        }
        assert(accept_check_layout(t, a, q, e2, sb));
        lemma_next_entry_table(u);
        let dr = State(CHK_ACC_DO_REST);
        let ne = State(CHK_ACC_NEXT_ENTRY);
        // The second comparison finds its first difference.
        let probe = lemma_byte_compare_entry(u, t, a, q, e2, sb, 0, 0, done, limit);
        let m2 = probe.1;
        if m2 == sb {
            assert forall|k: int| 0 <= k < sb implies #[trigger] agrees(t, e2, q + 1, k) by {}
            assert(false);
        }
        let j2 = m2 + 1;
        let nb = (j2 + 2 * sb + (q - a) + 3) as nat;
        let nc = probe.0;
        let n0 = lemma_byte_check_first_entry(u, t, a, q, sb, 0, done, limit);
        let d = done + n0 + nc + nb;
        let tm = mark_cells(t, e2, e2 + j2);
        // Over the first accepting state, then across the `;`.
        let f = fuel + 1;
        assert forall|k: int| a <= k < a + sb implies u.transitions@[table_index(dr, #[trigger] tm(k))] == Some(
            (dr, unmarked_bit(tm(k)), Dir::Right),
        ) by {
            assert(is_code_bit(t(k)));
        }
        lemma_restoring_scan(u, tm, a, sb, dr, f + 1, d, limit);
        assert forall|k: int| #[trigger] unmark_cells(tm, a, a + sb)(k) == tm(k) by {
            if a <= k < a + sb {
                assert(is_code_bit(t(k)));
            }
        }
        assert(unmark_cells(tm, a, a + sb) =~= tm);
        assert(write_cell(tm, a + sb, Symbol(SYM_SEMI)) =~= tm);
        assert(run_bytes(u, tm, a + sb, dr, f + 1, d + sb, limit) == run_bytes(u, tm, e2, ne, f, d + sb + 1, limit));
        // The second accepting state's first bit is marked: no rule.
        assert(is_code_bit(t(e2)));
        assert(tm(e2) == marked_bit(t(e2)));
        if u.transitions@[table_index(ne, tm(e2))] is Some {
            assert(false);
        }
        assert(!accepts(u, ne));
        // Back from the second difference to the accepting states.
        lemma_byte_mismatch_back_to_start(u, t, a, q, e2, sb, j2, f + 1 + sb, done + n0 + nc, limit);
        // The second comparison.
        let r = lemma_byte_compare_entry(u, t, a, q, e2, sb, 0, f + 1 + sb + nb, done + n0, limit);
        assert(r.0 == nc && r.1 == m2);
        // The first comparison, up to the start of the second.
        let n1 = lemma_byte_check_first_entry(u, t, a, q, sb, f + 1 + sb + nb + nc, done, limit);
        assert(n1 == n0);
        assert(is_code_bit(t(a + sb + 1)));
        let n = n0 + nc + nb + sb + 1;
        assert(fuel + 1 + n == f + 1 + sb + nb + nc + n1);
        n
    } else {
        0
    }
}

/// With two accepting states on the tape, `# first ; second # current #`
/// after the `$` at `h` and a stretch that the way home crosses, the check
/// of the current state ends the run `Accepted` exactly where the current
/// state equals one of the two, and `Rejected` otherwise.
pub proof fn lemma_byte_two_entries_check(
    u: &TuringMachineSpec,
    t: spec_fn(int) -> Symbol,
    h: int,
    a: int,
    sb: nat,
    fuel: nat,
    done: int,
    limit: i64,
) -> (n: nat)
    requires
        is_utm_shape(u),
        next_entry_keys_only(u),
        two_entry_layout(t, a, sb),
        h < a - 1,
        t(h) == Symbol(SYM_DOLLAR),
        forall|k: int| h < k < a - 1 ==> is_home_symbol(#[trigger] t(k)),
    ensures
        run_bytes(u, t, a, State(CHK_ACC_INIT), fuel + 1 + n, done, limit).0 == if same_code(
            t,
            a,
            a + 2 * sb + 2,
            sb,
        ) || same_code(t, a + sb + 1, a + 2 * sb + 2, sb) {
            RunResult::Accepted((done + n) as i64)
        } else {
            RunResult::Rejected((done + n) as i64)
        },
{
    if same_code(t, a, a + 2 * sb + 2, sb) || same_code(t, a + sb + 1, a + 2 * sb + 2, sb) {
        lemma_byte_two_entries_accept(u, t, h, a, sb, fuel, done, limit)
    } else {
        lemma_byte_two_entries_reject(u, t, a, sb, fuel, done, limit)
    }
}

} // verus!
