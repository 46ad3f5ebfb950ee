//! Decoding a byte-numbered universal machine's tape reads back what
//! encoding wrote.
use vstd::prelude::*;

use crate::binary::{
    binary, lemma_binary_len, lemma_binary_value, lemma_num_bits, lemma_symbols_value_of_bits,
    spec_num_bits, symbol_bit, symbols_value, two_pow,
};
use crate::byte_machine::{
    accepting_code, bit_code, byte_decodable, cell_code, cell_value, cells_code, dir_code, encode_spec,
    rule_code, rules_code, tape_cells, tape_view, State, Symbol, TuringMachineSpec, SYM_CARET, SYM_COMMA,
    SYM_DOT, SYM_HASH, SYM_PIPE, SYM_SEMI,
};
use crate::encoding::{code_symbols, hash_positions, parse_cells, parse_ok};
use crate::roundtrip::{free_of, lemma_hash_positions_append, lemma_hash_positions_hash};
use crate::utm_symbols::Symbol as TapeSymbol;

verus! {

/// No `#` among the symbols.
pub open spec fn hash_free(s: Seq<Symbol>) -> bool {
    forall|k: int| 0 <= k < s.len() ==> #[trigger] s[k].0 != SYM_HASH
}

/// The values of the cells that encoding writes: the input's, or one
/// blank for an empty input.
pub open spec fn written_codes(input: Seq<Symbol>, blank: Symbol) -> Seq<nat> {
    Seq::new(tape_cells(input), |i: int| cell_value(input, blank, i as nat))
}

proof fn lemma_view_code(v: nat, w: nat)
    ensures
        tape_view(bit_code(v, w)) == code_symbols(v, w),
{
    assert(tape_view(bit_code(v, w)) =~= code_symbols(v, w));
}

proof fn lemma_hash_free_view(s: Seq<Symbol>)
    requires
        hash_free(s),
    ensures
        free_of(tape_view(s), TapeSymbol::Hash),
{
    assert forall|k: int| 0 <= k < tape_view(s).len() implies tape_view(s)[k] != TapeSymbol::Hash by {
        assert(s[k].0 != SYM_HASH);
    }
}

proof fn lemma_hash_free_concat(a: Seq<Symbol>, b: Seq<Symbol>)
    requires
        hash_free(a),
        hash_free(b),
    ensures
        hash_free(a + b),
{
    assert forall|k: int| 0 <= k < (a + b).len() implies #[trigger] (a + b)[k].0 != SYM_HASH by {
        if k < a.len() {
            assert((a + b)[k] == a[k]);
        } else {
            assert((a + b)[k] == b[k - a.len()]);
        }
    }
}

proof fn lemma_rule_hash_free(r: (State, Symbol, State, Symbol, crate::tm::Dir), sb: nat, yb: nat)
    ensures
        hash_free(rule_code(r, sb, yb)),
{
    let d = seq![Symbol(SYM_DOT)];
    let p = seq![Symbol(SYM_PIPE)];
    let a0 = bit_code(r.0.0 as nat, sb);
    let a1 = bit_code(r.1.0 as nat, yb);
    let a2 = bit_code(r.2.0 as nat, sb);
    let a3 = bit_code(r.3.0 as nat, yb);
    let t = seq![Symbol(SYM_PIPE), dir_code(r.4)];
    lemma_hash_free_concat(d, a0);
    lemma_hash_free_concat(d + a0, p);
    lemma_hash_free_concat(d + a0 + p, a1);
    lemma_hash_free_concat(d + a0 + p + a1, p);
    lemma_hash_free_concat(d + a0 + p + a1 + p, a2);
    lemma_hash_free_concat(d + a0 + p + a1 + p + a2, p);
    lemma_hash_free_concat(d + a0 + p + a1 + p + a2 + p, a3);
    lemma_hash_free_concat(d + a0 + p + a1 + p + a2 + p + a3, t);
}

proof fn lemma_rules_hash_free(rules: Seq<(State, Symbol, State, Symbol, crate::tm::Dir)>, sb: nat, yb: nat)
    ensures
        hash_free(rules_code(rules, sb, yb)),
    decreases rules.len(),
{
    if rules.len() == 1 {
        lemma_rule_hash_free(rules[0], sb, yb);
    } else if rules.len() > 1 {
        lemma_rules_hash_free(rules.drop_last(), sb, yb);
        lemma_rule_hash_free(rules.last(), sb, yb);
        let a = rules_code(rules.drop_last(), sb, yb);
        lemma_hash_free_concat(a, seq![Symbol(SYM_SEMI)]);
        lemma_hash_free_concat(a + seq![Symbol(SYM_SEMI)], rule_code(rules.last(), sb, yb));
    }
}

proof fn lemma_accepting_hash_free(acc: Seq<bool>, sb: nat, upto: nat)
    ensures
        hash_free(accepting_code(acc, sb, upto)),
    decreases upto,
{
    if upto > 0 {
        lemma_accepting_hash_free(acc, sb, (upto - 1) as nat);
        let prev = accepting_code(acc, sb, (upto - 1) as nat);
        let c = bit_code((upto - 1) as nat, sb);
        lemma_hash_free_concat(prev, seq![Symbol(SYM_SEMI)]);
        lemma_hash_free_concat(prev + seq![Symbol(SYM_SEMI)], c);
    }
}

proof fn lemma_cells_hash_free(input: Seq<Symbol>, blank: Symbol, head: nat, yb: nat, n: nat)
    ensures
        hash_free(cells_code(input, blank, head, yb, n)),
    decreases n,
{
    if n > 0 {
        lemma_cells_hash_free(input, blank, head, yb, (n - 1) as nat);
        let k = (n - 1) as nat;
        let sep: Seq<Symbol> = if k > 0 { seq![Symbol(SYM_COMMA)] } else { Seq::empty() };
        let mark: Seq<Symbol> = if k == head { seq![Symbol(SYM_CARET)] } else { Seq::empty() };
        let c = bit_code(cell_value(input, blank, k), yb);
        assert(cell_code(input, blank, head, yb, k) == sep + mark + c);
        lemma_hash_free_concat(sep, mark);
        lemma_hash_free_concat(sep + mark, c);
        lemma_hash_free_concat(cells_code(input, blank, head, yb, k), cell_code(input, blank, head, yb, k));
    }
}

/// The cells written so far begin the cells written later.
proof fn lemma_cells_prefix(input: Seq<Symbol>, blank: Symbol, head: nat, yb: nat, k: nat, n: nat)
    requires
        k <= n,
    ensures
        cells_code(input, blank, head, yb, k).len() <= cells_code(input, blank, head, yb, n).len(),
        cells_code(input, blank, head, yb, n).take(cells_code(input, blank, head, yb, k).len() as int)
            == cells_code(input, blank, head, yb, k),
    decreases n,
{
    let ck = cells_code(input, blank, head, yb, k);
    let cn = cells_code(input, blank, head, yb, n);
    if k == n {
        assert(cn.take(ck.len() as int) =~= ck);
    } else {
        lemma_cells_prefix(input, blank, head, yb, k, (n - 1) as nat);
        let cm = cells_code(input, blank, head, yb, (n - 1) as nat);
        assert(cn == cm + cell_code(input, blank, head, yb, (n - 1) as nat));
        assert(cn.take(ck.len() as int) =~= cm.take(ck.len() as int));
    }
}

/// The cell counter and the head that reading has reached after `k`
/// cells.
pub open spec fn counter_after(k: nat) -> nat {
    if k == 0 {
        0
    } else {
        (k - 1) as nat
    }
}

pub open spec fn head_after(head: nat, k: nat) -> nat {
    if head < k {
        head
    } else {
        0
    }
}

/// Reading cell `k` of the tape section: its separator, its head marker,
/// then its code.
proof fn lemma_parse_cell(pre: Seq<TapeSymbol>, input: Seq<Symbol>, blank: Symbol, head: nat, yb: nat, n: nat, k: nat)
    requires
        yb >= 1,
        k < n,
        cell_value(input, blank, k) < two_pow(yb),
        cell_value(input, blank, k) < 256,
    ensures
        ({
            let t = pre + tape_view(cells_code(input, blank, head, yb, n));
            let p = (pre.len() + cells_code(input, blank, head, yb, k).len()) as int;
            let q = (pre.len() + cells_code(input, blank, head, yb, k + 1).len()) as int;
            let codes = written_codes(input, blank);
            &&& parse_cells(t, yb, p, counter_after(k), codes.take(k as int), head_after(head, k)) == parse_cells(
                t,
                yb,
                q,
                counter_after(k + 1),
                codes.take(k as int).push(cell_value(input, blank, k)),
                head_after(head, k + 1),
            )
            &&& parse_ok(t, yb, p, 256) == parse_ok(t, yb, q, 256)
        }),
{
    let cn = cells_code(input, blank, head, yb, n);
    let ck = cells_code(input, blank, head, yb, k);
    let ck1 = cells_code(input, blank, head, yb, k + 1);
    let cell = cell_code(input, blank, head, yb, k);
    let t = pre + tape_view(cn);
    let p = (pre.len() + ck.len()) as int;
    let v = cell_value(input, blank, k);
    let sep: Seq<Symbol> = if k > 0 { seq![Symbol(SYM_COMMA)] } else { Seq::empty() };
    let mark: Seq<Symbol> = if k == head { seq![Symbol(SYM_CARET)] } else { Seq::empty() };
    let code = bit_code(v, yb);
    assert(cell == sep + mark + code);
    assert(ck1 == ck + cell);
    lemma_cells_prefix(input, blank, head, yb, k + 1, n);
    lemma_binary_len(v, yb);
    let q = (pre.len() + ck1.len()) as int;
    // The cell's symbols on the tape.
    assert forall|j: int| 0 <= j < cell.len() implies t[p + j] == crate::byte_machine::as_tape_symbol(#[trigger] cell[j]) by {
        assert(t[p + j] == tape_view(cn)[ck.len() + j]);
        assert(cn[ck.len() + j] == cn.take(ck1.len() as int)[ck.len() + j]);
        assert(ck1[ck.len() + j] == cell[j]);
    }
    let c0 = (p + sep.len() + mark.len()) as int;
    assert(c0 + yb == q);
    assert(q <= t.len());
    // The code reads back as the cell's value.
    lemma_binary_value(v, yb);
    assert(t.subrange(c0, c0 + yb as int) =~= code_symbols(v, yb)) by {
        assert forall|b: int| 0 <= b < yb implies #[trigger] t.subrange(c0, c0 + yb as int)[b] == code_symbols(v, yb)[b] by {
            let j = sep.len() + mark.len() + b;
            assert(cell[j] == code[b]);
            assert(t[p + j] == crate::byte_machine::as_tape_symbol(cell[j]));
            assert(c0 + b == p + j);
        }
    }
    lemma_symbols_value_of_bits(t, c0, binary(v, yb));
    assert(symbol_bit(t[c0]) is Some);
    let codes = written_codes(input, blank);
    let before = codes.take(k as int);
    let after = before.push(v);
    if k > 0 {
        assert(cell[0] == Symbol(SYM_COMMA));
        assert(t[p + 0] == crate::byte_machine::as_tape_symbol(cell[0]));
        assert(t[p] == TapeSymbol::Comma);
        if k == head {
            assert(cell[1] == Symbol(SYM_CARET));
            assert(t[p + 1] == crate::byte_machine::as_tape_symbol(cell[1]));
            assert(t[p + 1] == TapeSymbol::Caret);
            assert(parse_cells(t, yb, p + 1, k, before, head_after(head, k)) == parse_cells(t, yb, p + 2, k, before, k));
        }
        assert(parse_cells(t, yb, p, counter_after(k), before, head_after(head, k)) == parse_cells(
            t,
            yb,
            p + 1,
            k,
            before,
            head_after(head, k),
        ));
        assert(parse_ok(t, yb, p, 256) == parse_ok(t, yb, p + 1, 256));
        if k == head {
            assert(parse_ok(t, yb, p + 1, 256) == parse_ok(t, yb, p + 2, 256));
        }
    } else {
        if k == head {
            assert(cell[0] == Symbol(SYM_CARET));
            assert(t[p + 0] == crate::byte_machine::as_tape_symbol(cell[0]));
            assert(t[p] == TapeSymbol::Caret);
            assert(parse_cells(t, yb, p, 0, before, 0) == parse_cells(t, yb, p + 1, 0, before, 0));
            assert(parse_ok(t, yb, p, 256) == parse_ok(t, yb, p + 1, 256));
        }
    }
    assert(parse_cells(t, yb, c0, k, before, head_after(head, k + 1)) == parse_cells(
        t,
        yb,
        q,
        k,
        after,
        head_after(head, k + 1),
    ));
    assert(parse_ok(t, yb, c0, 256) == parse_ok(t, yb, q, 256));
}

/// Reading the tape section from cell `k` on gives back every cell's
/// value and the head's cell.
proof fn lemma_parse_cells_from(pre: Seq<TapeSymbol>, input: Seq<Symbol>, blank: Symbol, head: nat, yb: nat, k: nat)
    requires
        yb >= 1,
        k <= tape_cells(input),
        head < tape_cells(input),
        forall|i: nat| i < tape_cells(input) ==> #[trigger] cell_value(input, blank, i) < two_pow(yb) && cell_value(
            input,
            blank,
            i,
        ) < 256,
    ensures
        ({
            let n = tape_cells(input);
            let t = pre + tape_view(cells_code(input, blank, head, yb, n));
            let p = (pre.len() + cells_code(input, blank, head, yb, k).len()) as int;
            let codes = written_codes(input, blank);
            &&& parse_cells(t, yb, p, counter_after(k), codes.take(k as int), head_after(head, k)) == (codes, head)
            &&& parse_ok(t, yb, p, 256)
        }),
    decreases tape_cells(input) - k,
{
    let n = tape_cells(input);
    let codes = written_codes(input, blank);
    let t = pre + tape_view(cells_code(input, blank, head, yb, n));
    if k == n {
        assert(codes.take(k as int) =~= codes);
    } else {
        assert(cell_value(input, blank, k) < two_pow(yb));
        lemma_parse_cell(pre, input, blank, head, yb, n, k);
        lemma_parse_cells_from(pre, input, blank, head, yb, k + 1);
        assert(codes.take(k as int).push(cell_value(input, blank, k)) =~= codes.take((k + 1) as int));
    }
}

/// Decoding what encoding wrote gives back the state, the cells written
/// (the input, or one blank for an empty input) and the head's cell,
/// wherever the head is among those cells.
pub proof fn lemma_byte_decode_encode(g: &TuringMachineSpec, input: Seq<Symbol>, head: nat, state: State)
    requires
        g.n_states <= 256,
        g.n_symbols <= 256,
        (state.0 as nat) < g.n_states,
        (g.blank.0 as nat) < g.n_symbols,
        forall|i: int| 0 <= i < input.len() ==> (#[trigger] input[i].0 as nat) < g.n_symbols,
        head < tape_cells(input),
    ensures
        ({
            let e = encode_spec(g, input, head, state);
            let t = tape_view(e);
            let h = hash_positions(t);
            let sb = spec_num_bits(g.n_states as nat);
            let yb = spec_num_bits(g.n_symbols as nat);
            &&& byte_decodable(g, e)
            &&& symbols_value(t, h[2] + 1, sb) == state.0
            &&& parse_cells(t, yb, h[4] + 1, 0, Seq::empty(), 0) == (written_codes(input, g.blank), head)
        }),
{
    let sb = spec_num_bits(g.n_states as nat);
    let yb = spec_num_bits(g.n_symbols as nat);
    lemma_num_bits(g.n_states as nat);
    lemma_num_bits(g.n_symbols as nat);
    let n = tape_cells(input);
    let rr = rules_code(g.ordered_rules@, sb, yb);
    let aa = accepting_code(g.accepting@, sb, g.accepting@.len());
    let ss = bit_code(state.0 as nat, sb);
    let bb = bit_code(g.blank.0 as nat, yb);
    let cc = cells_code(input, g.blank, head, yb, n);
    let e = encode_spec(g, input, head, state);
    let hs = seq![TapeSymbol::Hash];
    let q1 = seq![TapeSymbol::Dollar];
    let q2 = q1 + hs;
    let q3 = q2 + tape_view(rr);
    let q4 = q3 + hs;
    let q5 = q4 + tape_view(aa);
    let q6 = q5 + hs;
    let q7 = q6 + tape_view(ss);
    let q8 = q7 + hs;
    let q9 = q8 + tape_view(bb);
    let q10 = q9 + hs;
    let t = tape_view(e);
    assert(t =~= q10 + tape_view(cc));
    // Where the `#` are.
    lemma_rules_hash_free(g.ordered_rules@, sb, yb);
    lemma_accepting_hash_free(g.accepting@, sb, g.accepting@.len());
    lemma_cells_hash_free(input, g.blank, head, yb, n);
    lemma_hash_free_view(rr);
    lemma_hash_free_view(aa);
    lemma_hash_free_view(ss);
    lemma_hash_free_view(bb);
    lemma_hash_free_view(cc);
    assert(hash_positions(q1) =~= Seq::<int>::empty()) by {
        assert(q1.drop_last() =~= Seq::<TapeSymbol>::empty());
        assert(hash_positions(Seq::<TapeSymbol>::empty()) =~= Seq::<int>::empty());
        assert(q1.last() == TapeSymbol::Dollar);
    }
    lemma_hash_positions_hash(q1);
    lemma_hash_positions_append(q2, tape_view(rr));
    lemma_hash_positions_hash(q3);
    lemma_hash_positions_append(q4, tape_view(aa));
    lemma_hash_positions_hash(q5);
    lemma_hash_positions_append(q6, tape_view(ss));
    lemma_hash_positions_hash(q7);
    lemma_hash_positions_append(q8, tape_view(bb));
    lemma_hash_positions_hash(q9);
    lemma_hash_positions_append(q10, tape_view(cc));
    let h = hash_positions(t);
    assert(h =~= seq![1int, q3.len() as int, q5.len() as int, q7.len() as int, q9.len() as int]);
    // The state section.
    lemma_view_code(state.0 as nat, sb);
    lemma_binary_value(state.0 as nat, sb);
    assert(t.subrange(q6.len() as int, (q6.len() + sb) as int) =~= code_symbols(state.0 as nat, sb));
    lemma_symbols_value_of_bits(t, q6.len() as int, binary(state.0 as nat, sb));
    // The tape section.
    assert forall|i: nat| i < n implies #[trigger] cell_value(input, g.blank, i) < two_pow(yb) && cell_value(
        input,
        g.blank,
        i,
    ) < 256 by {
        if i < input.len() {
            assert((input[i as int].0 as nat) < g.n_symbols);
        }
    }
    lemma_parse_cells_from(q10, input, g.blank, head, yb, 0);
    assert(cells_code(input, g.blank, head, yb, 0).len() == 0);
    assert(written_codes(input, g.blank).take(0) =~= Seq::<nat>::empty());
}

} // verus!
