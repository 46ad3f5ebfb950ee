//! Decoding reads back what encoding wrote.
use vstd::prelude::*;

use crate::binary::{
    all_bits, binary, bits_symbols, lemma_binary_len, lemma_binary_value, lemma_num_bits,
    lemma_symbols_value_of_bits, spec_num_bits, symbol_bit, symbols_value, two_pow,
};
use crate::compiled::position;
use crate::encoding::{
    accepting_codes, alternatives, cells_section, code_symbols, encode_spec, hash_positions, header_spec,
    join_codes, parse_cells, parse_ok, rules_view, serialize_rules_view, serialize_view,
    symbol_codes, tm_within, written_cells, MyUtmSpecOptimizationHints, RuleView,
};
use crate::tm::{TmConfig, TuringMachineSpec};
use crate::utm_symbols::Symbol;

verus! {

/// `z` does not occur in the symbols.
pub open spec fn free_of(s: Seq<Symbol>, z: Symbol) -> bool {
    forall|k: int| 0 <= k < s.len() ==> s[k] != z
}

/// A symbol that the accepting states, the blank, the rules and the
/// state of an encoding never hold: not a bit, `$`, `.`, `|`, `,`, `;`,
/// `L` or `R`.
pub open spec fn not_in_header_text(z: Symbol) -> bool {
    &&& z != Symbol::Zero
    &&& z != Symbol::One
    &&& z != Symbol::Dollar
    &&& z != Symbol::Dot
    &&& z != Symbol::Pipe
    &&& z != Symbol::Comma
    &&& z != Symbol::Semi
    &&& z != Symbol::L
    &&& z != Symbol::R
}

proof fn lemma_free_concat(a: Seq<Symbol>, b: Seq<Symbol>, z: Symbol)
    requires
        free_of(a, z),
        free_of(b, z),
    ensures
        free_of(a + b, z),
{
    assert forall|k: int| 0 <= k < (a + b).len() implies (a + b)[k] != z by {
        if k < a.len() {
            assert((a + b)[k] == a[k]);
        } else {
            assert((a + b)[k] == b[k - a.len()]);
        }
    }
}

proof fn lemma_code_free(c: nat, w: nat, z: Symbol)
    requires
        not_in_header_text(z),
    ensures
        free_of(code_symbols(c, w), z),
{
    let s = code_symbols(c, w);
    assert forall|k: int| 0 <= k < s.len() implies s[k] != z by {
        assert(s[k] == crate::binary::bit_symbol(binary(c, w)[k]));
    }
}

proof fn lemma_join_codes_free(codes: Seq<nat>, w: nat, sep: Symbol, z: Symbol)
    requires
        sep != z,
        not_in_header_text(z),
    ensures
        free_of(join_codes(codes, w, sep), z),
    decreases codes.len(),
{
    if codes.len() == 1 {
        lemma_code_free(codes[0], w, z);
    } else if codes.len() > 1 {
        lemma_join_codes_free(codes.drop_last(), w, sep, z);
        lemma_code_free(codes.last(), w, z);
        lemma_free_concat(join_codes(codes.drop_last(), w, sep), seq![sep], z);
        lemma_free_concat(join_codes(codes.drop_last(), w, sep) + seq![sep], code_symbols(codes.last(), w), z);
    }
}

proof fn lemma_alternatives_free(syms: Seq<nat>, w: nat, z: Symbol)
    requires
        not_in_header_text(z),
    ensures
        free_of(alternatives(syms, w), z),
    decreases syms.len(),
{
    if syms.len() > 0 {
        lemma_alternatives_free(syms.drop_last(), w, z);
        lemma_code_free(syms.last(), w, z);
        let a = alternatives(syms.drop_last(), w);
        lemma_free_concat(a, seq![Symbol::Comma], z);
        lemma_free_concat(a + seq![Symbol::Comma], code_symbols(syms.last(), w), z);
    }
}

proof fn lemma_serialize_view_free(r: RuleView, sb: nat, yb: nat, z: Symbol)
    requires
        not_in_header_text(z),
    ensures
        free_of(serialize_view(r, sb, yb), z),
{
    let d = seq![Symbol::Dot];
    let p = seq![Symbol::Pipe];
    match r {
        RuleView::Single { state, sym, new_state, new_sym, dir } => {
            lemma_code_free(state, sb, z);
            lemma_code_free(sym, yb, z);
            lemma_code_free(new_state, sb, z);
            lemma_code_free(new_sym, yb, z);
            let t = seq![Symbol::Pipe, crate::encoding::dir_symbol(dir)];
            let a1 = d + code_symbols(state, sb);
            lemma_free_concat(d, code_symbols(state, sb), z);
            lemma_free_concat(a1, p, z);
            let a2 = a1 + p + code_symbols(sym, yb);
            lemma_free_concat(a1 + p, code_symbols(sym, yb), z);
            lemma_free_concat(a2, p, z);
            let a3 = a2 + p + code_symbols(new_state, sb);
            lemma_free_concat(a2 + p, code_symbols(new_state, sb), z);
            lemma_free_concat(a3, p, z);
            let a4 = a3 + p + code_symbols(new_sym, yb);
            lemma_free_concat(a3 + p, code_symbols(new_sym, yb), z);
            lemma_free_concat(a4, t, z);
        },
        RuleView::NoopGroup { state, syms, dir } => {
            lemma_code_free(state, sb, z);
            lemma_alternatives_free(syms, yb, z);
            let t = seq![Symbol::Pipe, crate::encoding::dir_symbol(dir)];
            let a1 = d + code_symbols(state, sb);
            lemma_free_concat(d, code_symbols(state, sb), z);
            lemma_free_concat(a1, alternatives(syms, yb), z);
            lemma_free_concat(a1 + alternatives(syms, yb), t, z);
        },
    }
}

proof fn lemma_serialize_rules_free(rules: Seq<RuleView>, sb: nat, yb: nat, z: Symbol)
    requires
        not_in_header_text(z),
    ensures
        free_of(serialize_rules_view(rules, sb, yb), z),
    decreases rules.len(),
{
    if rules.len() == 1 {
        lemma_serialize_view_free(rules[0], sb, yb, z);
    } else if rules.len() > 1 {
        lemma_serialize_rules_free(rules.drop_last(), sb, yb, z);
        lemma_serialize_view_free(rules.last(), sb, yb, z);
        let a = serialize_rules_view(rules.drop_last(), sb, yb);
        lemma_free_concat(a, seq![Symbol::Semi], z);
        lemma_free_concat(a + seq![Symbol::Semi], serialize_view(rules.last(), sb, yb), z);
    }
}

proof fn lemma_cells_section_free(codes: Seq<nat>, w: nat, z: Symbol)
    requires
        not_in_header_text(z),
    ensures
        free_of(cells_section(codes, w), z),
    decreases codes.len(),
{
    if codes.len() > 0 {
        lemma_cells_section_free(codes.drop_last(), w, z);
        lemma_code_free(codes.last(), w, z);
        let a = cells_section(codes.drop_last(), w);
        lemma_free_concat(a, seq![Symbol::Comma], z);
        lemma_free_concat(a + seq![Symbol::Comma], code_symbols(codes.last(), w), z);
    }
}

pub(crate) proof fn lemma_hash_positions_append(p: Seq<Symbol>, s: Seq<Symbol>)
    requires
        free_of(s, Symbol::Hash),
    ensures
        hash_positions(p + s) == hash_positions(p),
    decreases s.len(),
{
    if s.len() == 0 {
        assert(p + s =~= p);
    } else {
        assert((p + s).drop_last() =~= p + s.drop_last());
        assert(free_of(s.drop_last(), Symbol::Hash)) by {
            assert forall|k: int| 0 <= k < s.drop_last().len() implies s.drop_last()[k] != Symbol::Hash by {
                assert(s.drop_last()[k] == s[k]);
            }
        }
        lemma_hash_positions_append(p, s.drop_last());
        assert((p + s).last() == s.last());
    }
}

pub(crate) proof fn lemma_hash_positions_hash(p: Seq<Symbol>)
    ensures
        hash_positions(p + seq![Symbol::Hash]) == hash_positions(p).push(p.len() as int),
{
    assert((p + seq![Symbol::Hash]).drop_last() =~= p);
}

/// The cells section is one comma and one code per cell.
proof fn lemma_cells_section_layout(codes: Seq<nat>, w: nat)
    ensures
        cells_section(codes, w).len() == codes.len() * (w + 1),
        forall|j: int|
            0 <= j < codes.len() ==> #[trigger] cells_section(codes, w).subrange(j * (w + 1), j * (w + 1) + w + 1)
                == seq![Symbol::Comma] + code_symbols(codes[j], w),
    decreases codes.len(),
{
    if codes.len() > 0 {
        let n = codes.len() as int;
        let prev = codes.drop_last();
        lemma_cells_section_layout(prev, w);
        lemma_binary_len(codes.last(), w);
        let cs = cells_section(codes, w);
        let cp = cells_section(prev, w);
        let m = (w + 1) as int;
        assert(cs == cp + seq![Symbol::Comma] + code_symbols(codes.last(), w));
        assert((n - 1) * m + m == n * m) by (nonlinear_arith);
        assert forall|j: int| 0 <= j < n implies #[trigger] cs.subrange(j * m, j * m + w + 1) == seq![Symbol::Comma]
            + code_symbols(codes[j], w) by {
            if j < n - 1 {
                assert(j * m + m <= (n - 1) * m) by (nonlinear_arith)
                    requires
                        0 <= j < n - 1,
                        m >= 1,
                ;
                assert(0 <= j * m) by (nonlinear_arith)
                    requires
                        0 <= j,
                        m >= 1,
                ;
                assert(cs.subrange(j * m, j * m + w + 1) =~= cp.subrange(j * m, j * m + w + 1));
                assert(prev[j] == codes[j]);
            } else {
                lemma_binary_len(codes[j], w);
                assert(cs.subrange(j * m, j * m + w + 1) =~= seq![Symbol::Comma] + code_symbols(codes[j], w));
            }
        }
    }
}

/// Cell `k` of the tape section: its separator (`^` for the first cell,
/// `,` for the others) followed by the code of the cell.
proof fn lemma_cell_at(pre: Seq<Symbol>, codes: Seq<nat>, w: nat, k: int)
    requires
        w >= 1,
        0 <= k < codes.len(),
        codes[k] < two_pow(w),
    ensures
        ({
            let tape = pre + cells_section(codes, w).update(0, Symbol::Caret);
            let p = pre.len() + k * (w + 1);
            &&& pre.len() <= p
            &&& p + 1 + w <= tape.len()
            &&& pre.len() + (k + 1) * (w + 1) == p + 1 + w
            &&& k == 0 ==> tape[p] == Symbol::Caret
            &&& k > 0 ==> tape[p] == Symbol::Comma
            &&& all_bits(tape, p + 1, w as int)
            &&& symbols_value(tape, p + 1, w) == codes[k]
        }),
{
    let cs = cells_section(codes, w);
    let t = cs.update(0, Symbol::Caret);
    let tape = pre + t;
    lemma_cells_section_layout(codes, w);
    let n = codes.len() as int;
    let m = (w + 1) as int;
    let q = k * m;
    let p = pre.len() + q;
    assert(q + m <= n * m) by (nonlinear_arith)
        requires
            0 <= k < n,
            m >= 1,
            q == k * m,
    ;
    assert(0 <= q && (k >= 1 ==> q >= m)) by (nonlinear_arith)
        requires
            0 <= k,
            m >= 1,
            q == k * m,
    ;
    assert((k + 1) * m == q + m) by (nonlinear_arith)
        requires
            q == k * m,
    ;
    let piece = cs.subrange(q, q + w + 1);
    assert(piece == seq![Symbol::Comma] + code_symbols(codes[k], w));
    lemma_binary_len(codes[k], w);
    assert(tape[p] == t[q]);
    if k > 0 {
        assert(t[q] == cs[q]);
        assert(cs[q] == piece[0]);
    }
    let bits = binary(codes[k], w);
    lemma_binary_value(codes[k], w);
    assert(tape.subrange(p + 1, p + 1 + w) =~= bits_symbols(bits)) by {
        assert forall|b: int| 0 <= b < w implies #[trigger] tape.subrange(p + 1, p + 1 + w)[b] == bits_symbols(
            bits,
        )[b] by {
            assert(tape[p + 1 + b] == t[q + 1 + b]);
            assert(t[q + 1 + b] == cs[q + 1 + b]);
            assert(cs[q + 1 + b] == piece[1 + b]);
        }
    }
    lemma_symbols_value_of_bits(tape, p + 1, bits);
}

/// Reading the tape section cell by cell from cell `k` gives back every
/// code, with the head on the first cell.
proof fn lemma_parse_tape_section(pre: Seq<Symbol>, codes: Seq<nat>, w: nat, bound: nat, k: nat)
    requires
        codes.len() > 0,
        w >= 1,
        k <= codes.len(),
        forall|j: int| 0 <= j < codes.len() ==> #[trigger] codes[j] < two_pow(w) && codes[j] < bound,
    ensures
        ({
            let tape = pre + cells_section(codes, w).update(0, Symbol::Caret);
            let p = (pre.len() + k * (w + 1)) as int;
            let cell: nat = if k == 0 {
                0
            } else {
                (k - 1) as nat
            };
            &&& parse_cells(tape, w, p, cell, codes.take(k as int), 0) == (codes, 0nat)
            &&& parse_ok(tape, w, p, bound)
        }),
    decreases codes.len() - k,
{
    let tape = pre + cells_section(codes, w).update(0, Symbol::Caret);
    let n = codes.len() as int;
    let p = (pre.len() + k * (w + 1)) as int;
    if k == n {
        lemma_cells_section_layout(codes, w);
        assert(p == tape.len());
        assert(codes.take(k as int) =~= codes);
    } else {
        let cell: nat = if k == 0 {
            0
        } else {
            (k - 1) as nat
        };
        assert(codes[k as int] < two_pow(w));
        lemma_cell_at(pre, codes, w, k as int);
        assert(symbol_bit(tape[p + 1]) is Some);
        lemma_parse_tape_section(pre, codes, w, bound, k + 1);
        assert(codes.take(k as int).push(codes[k as int]) =~= codes.take(k + 1int));
        assert(parse_cells(tape, w, p + 1, k, codes.take(k as int), 0) == parse_cells(
            tape,
            w,
            p + 1 + w,
            k,
            codes.take(k + 1int),
            0,
        ));
        assert(parse_cells(tape, w, p, cell, codes.take(k as int), 0) == parse_cells(
            tape,
            w,
            p + 1,
            k,
            codes.take(k as int),
            0,
        ));
        assert(parse_ok(tape, w, p + 1, bound) == parse_ok(tape, w, p + 1 + w, bound));
    }
}

proof fn lemma_position_in<T>(s: Seq<T>, x: T)
    requires
        s.contains(x),
    ensures
        0 <= position(s, x) < s.len(),
        s[position(s, x)] == x,
{
}

/// Where the `#` of an encoding are, and what its state section reads,
/// whatever `#`-free symbols follow the header.
pub proof fn lemma_header_layout<Spec: TuringMachineSpec>(
    g: &Spec,
    rules: Seq<RuleView>,
    state: Spec::State,
    rest: Seq<Symbol>,
)
    requires
        g.spec_states().contains(state),
        free_of(rest, Symbol::Hash),
    ensures
        ({
            let header = header_spec(g, rules, state);
            let e = header + rest;
            let hp = hash_positions(e);
            let sb = spec_num_bits(g.spec_states().len());
            &&& hp.len() == 4
            &&& hp[3] == header.len() - 1
            &&& hp[2] + 1 + sb == hp[3]
            &&& 0 <= hp[2]
            &&& all_bits(e, hp[2] + 1, sb as int)
            &&& symbols_value(e, hp[2] + 1, sb) == position(g.spec_states(), state)
            &&& free_of(header, Symbol::Caret)
        }),
{
    let ss = g.spec_states();
    let ys = g.spec_symbols();
    let sb = spec_num_bits(ss.len());
    let yb = spec_num_bits(ys.len());
    lemma_num_bits(ss.len());
    lemma_num_bits(ys.len());
    let acc = seq![Symbol::Dollar] + join_codes(accepting_codes(g, ss, ss.len() as int), sb, Symbol::Semi);
    let blank_code = code_symbols(position(ys, g.spec_blank()) as nat, yb);
    let rule_text = serialize_rules_view(rules, sb, yb);
    let scode = code_symbols(position(ss, state) as nat, sb);
    let h = seq![Symbol::Hash];
    let p1 = acc + h;
    let p2 = p1 + blank_code + h;
    let p3 = p2 + rule_text + h;
    let p4 = p3 + scode + h;
    assert(p4 =~= header_spec(g, rules, state));
    let e = p4 + rest;
    lemma_join_codes_free(accepting_codes(g, ss, ss.len() as int), sb, Symbol::Semi, Symbol::Hash);
    lemma_free_concat(seq![Symbol::Dollar], join_codes(accepting_codes(g, ss, ss.len() as int), sb, Symbol::Semi), Symbol::Hash);
    lemma_hash_positions_append(Seq::empty(), acc);
    assert(Seq::<Symbol>::empty() + acc =~= acc);
    assert(hash_positions(Seq::<Symbol>::empty()) =~= Seq::<int>::empty());
    lemma_hash_positions_hash(acc);
    lemma_code_free(position(ys, g.spec_blank()) as nat, yb, Symbol::Hash);
    lemma_hash_positions_append(p1, blank_code);
    lemma_hash_positions_hash(p1 + blank_code);
    lemma_serialize_rules_free(rules, sb, yb, Symbol::Hash);
    lemma_hash_positions_append(p2, rule_text);
    lemma_hash_positions_hash(p2 + rule_text);
    lemma_code_free(position(ss, state) as nat, sb, Symbol::Hash);
    lemma_hash_positions_append(p3, scode);
    lemma_hash_positions_hash(p3 + scode);
    lemma_hash_positions_append(p4, rest);
    let hp = hash_positions(e);
    assert(hp =~= seq![acc.len() as int, p2.len() - 1, p3.len() - 1, p4.len() - 1]);
    // The state section.
    lemma_position_in(ss, state);
    let sc = position(ss, state) as nat;
    lemma_binary_value(sc, sb);
    assert(e.subrange(p3.len() as int, (p3.len() + sb) as int) =~= bits_symbols(binary(sc, sb)));
    lemma_symbols_value_of_bits(e, p3.len() as int, binary(sc, sb));
    // No `^` in the header.
    lemma_join_codes_free(accepting_codes(g, ss, ss.len() as int), sb, Symbol::Semi, Symbol::Caret);
    lemma_free_concat(seq![Symbol::Dollar], join_codes(accepting_codes(g, ss, ss.len() as int), sb, Symbol::Semi), Symbol::Caret);
    lemma_free_concat(acc, h, Symbol::Caret);
    lemma_code_free(position(ys, g.spec_blank()) as nat, yb, Symbol::Caret);
    lemma_free_concat(p1, blank_code, Symbol::Caret);
    lemma_free_concat(p1 + blank_code, h, Symbol::Caret);
    lemma_serialize_rules_free(rules, sb, yb, Symbol::Caret);
    lemma_free_concat(p2, rule_text, Symbol::Caret);
    lemma_free_concat(p2 + rule_text, h, Symbol::Caret);
    lemma_code_free(position(ss, state) as nat, sb, Symbol::Caret);
    lemma_free_concat(p3, scode, Symbol::Caret);
    lemma_free_concat(p3 + scode, h, Symbol::Caret);
}

/// Decoding an encoded guest gives back its state and the cells that
/// encoding wrote (its tape, or one blank for an empty tape), with the
/// head on the first cell.
pub proof fn lemma_decode_encode<'a, Guest: TuringMachineSpec>(
    hints: &MyUtmSpecOptimizationHints<'a, Guest>,
    state: Guest::State,
    tape: Seq<Guest::Symbol>,
)
    requires
        hints.wf(),
        tm_within(hints.guest.spec_states(), hints.guest.spec_symbols(), state, tape),
    ensures
        ({
            let e = encode_spec(hints.guest, rules_view(hints.rules@), state, tape);
            &&& hash_positions(e).len() == 4
            &&& hints.decodable(e)
            &&& hints.decoded_config(e) == TmConfig {
                state,
                pos: 0,
                tape: written_cells(tape, hints.guest.spec_blank()),
            }
        }),
{
    let g = hints.guest;
    let ss = g.spec_states();
    let ys = g.spec_symbols();
    let sb = spec_num_bits(ss.len());
    let yb = spec_num_bits(ys.len());
    lemma_num_bits(ss.len());
    lemma_num_bits(ys.len());
    let wc = written_cells(tape, g.spec_blank());
    let cells = symbol_codes(ys, wc);
    let t = cells_section(cells, yb).update(0, Symbol::Caret);
    let p4 = header_spec(g, rules_view(hints.rules@), state);
    let e = p4 + t;
    assert(e =~= encode_spec(g, rules_view(hints.rules@), state, tape));
    lemma_cells_section_free(cells, yb, Symbol::Hash);
    assert(free_of(t, Symbol::Hash)) by {
        assert forall|k: int| 0 <= k < t.len() implies t[k] != Symbol::Hash by {
            if k != 0 {
                assert(t[k] == cells_section(cells, yb)[k]);
            }
        }
    }
    lemma_header_layout(g, rules_view(hints.rules@), state, t);
    let hp = hash_positions(e);
    // The tape section.
    assert forall|j: int| 0 <= j < wc.len() implies ys.contains(#[trigger] wc[j]) by {
        if tape.len() > 0 {
            assert(ys.contains(tape[j]));
        }
    }
    assert forall|j: int| 0 <= j < cells.len() implies #[trigger] cells[j] < two_pow(yb) && cells[j] < ys.len() by {
        assert(ys.contains(wc[j]));
        lemma_position_in(ys, wc[j]);
    }
    lemma_parse_tape_section(p4, cells, yb, ys.len(), 0);
    assert(cells.take(0) =~= Seq::<nat>::empty());
    assert(p4.len() + 0 * (yb + 1) == hp[3] + 1);
    let parsed = parse_cells(e, yb, hp[3] + 1, 0, Seq::empty(), 0);
    assert(parsed == (cells, 0nat));
    let back = cells.map_values(|c: nat| ys[c as int]);
    assert(back =~= wc) by {
        assert forall|j: int| 0 <= j < wc.len() implies #[trigger] back[j] == wc[j] by {
            assert(ys.contains(wc[j]));
            lemma_position_in(ys, wc[j]);
        }
    }
}

} // verus!
