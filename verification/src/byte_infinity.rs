//! The infinite tape of the byte-numbered universal machine running
//! itself reads back as itself: its header is the machine's own encoding
//! before the tape section, and each cell holds the code of the symbol at
//! the position that is the cell's number.
use vstd::prelude::*;

use crate::binary::{lemma_binary_len, spec_num_bits};
use crate::byte_machine::{
    accepting_code, background, bit_code, byte_decodable, cell_code, cell_value, cells_code, dir_code, encode_spec,
    rule_code, rules_code, tape_cells, tape_view, State, Symbol, TuringMachineSpec, SYM_CARET, SYM_COMMA,
    SYM_DOLLAR, SYM_DOT, SYM_HASH, SYM_PIPE, SYM_SEMI,
};
use crate::byte_roundtrip::{lemma_byte_decode_encode, written_codes};
use crate::byte_utm::is_header_of;
use crate::encoding::{hash_positions, parse_cells};
use crate::binary::symbols_value;

verus! {

/// Symbols of the text before the tape section other than `#`: numbers
/// of tape symbols, and no `^`.
pub open spec fn plain(s: Seq<Symbol>) -> bool {
    forall|k: int| 0 <= k < s.len() ==> (#[trigger] s[k]).0 < 16 && s[k].0 != SYM_CARET && s[k].0 != SYM_HASH
}

/// Every symbol is the number of a tape symbol.
pub open spec fn below16(s: Seq<Symbol>) -> bool {
    forall|k: int| 0 <= k < s.len() ==> (#[trigger] s[k]).0 < 16
}

/// No `^` among the symbols.
pub open spec fn caret_free(s: Seq<Symbol>) -> bool {
    forall|k: int| 0 <= k < s.len() ==> (#[trigger] s[k]).0 != SYM_CARET
}

/// Everything that encoding writes before the tape section.
pub open spec fn pre_cells(g: &TuringMachineSpec, state: State) -> Seq<Symbol> {
    let sb = spec_num_bits(g.n_states as nat);
    let yb = spec_num_bits(g.n_symbols as nat);
    seq![Symbol(SYM_DOLLAR), Symbol(SYM_HASH)] + rules_code(g.ordered_rules@, sb, yb) + seq![Symbol(SYM_HASH)]
        + accepting_code(g.accepting@, sb, g.accepting@.len()) + seq![Symbol(SYM_HASH)] + bit_code(
        state.0 as nat,
        sb,
    ) + seq![Symbol(SYM_HASH)] + bit_code(g.blank.0 as nat, yb) + seq![Symbol(SYM_HASH)]
}

proof fn lemma_plain_concat(a: Seq<Symbol>, b: Seq<Symbol>)
    requires
        plain(a),
        plain(b),
    ensures
        plain(a + b),
{
    assert forall|k: int| 0 <= k < (a + b).len() implies (#[trigger] (a + b)[k]).0 < 16 && (a + b)[k].0 != SYM_CARET
        && (a + b)[k].0 != SYM_HASH by {
        if k < a.len() {
            assert((a + b)[k] == a[k]);
        } else {
            assert((a + b)[k] == b[k - a.len()]);
        }
    }
}

proof fn lemma_below16_concat(a: Seq<Symbol>, b: Seq<Symbol>)
    requires
        below16(a),
        below16(b),
    ensures
        below16(a + b),
{
    assert forall|k: int| 0 <= k < (a + b).len() implies (#[trigger] (a + b)[k]).0 < 16 by {
        if k < a.len() {
            assert((a + b)[k] == a[k]);
        } else {
            assert((a + b)[k] == b[k - a.len()]);
        }
    }
}

proof fn lemma_caret_free_concat(a: Seq<Symbol>, b: Seq<Symbol>)
    requires
        caret_free(a),
        caret_free(b),
    ensures
        caret_free(a + b),
{
    assert forall|k: int| 0 <= k < (a + b).len() implies (#[trigger] (a + b)[k]).0 != SYM_CARET by {
        if k < a.len() {
            assert((a + b)[k] == a[k]);
        } else {
            assert((a + b)[k] == b[k - a.len()]);
        }
    }
}

proof fn lemma_rule_plain(r: (State, Symbol, State, Symbol, crate::tm::Dir), sb: nat, yb: nat)
    ensures
        plain(rule_code(r, sb, yb)),
{
    let d = seq![Symbol(SYM_DOT)];
    let p = seq![Symbol(SYM_PIPE)];
    let a0 = bit_code(r.0.0 as nat, sb);
    let a1 = bit_code(r.1.0 as nat, yb);
    let a2 = bit_code(r.2.0 as nat, sb);
    let a3 = bit_code(r.3.0 as nat, yb);
    let t = seq![Symbol(SYM_PIPE), dir_code(r.4)];
    lemma_plain_concat(d, a0);
    lemma_plain_concat(d + a0, p);
    lemma_plain_concat(d + a0 + p, a1);
    lemma_plain_concat(d + a0 + p + a1, p);
    lemma_plain_concat(d + a0 + p + a1 + p, a2);
    lemma_plain_concat(d + a0 + p + a1 + p + a2, p);
    lemma_plain_concat(d + a0 + p + a1 + p + a2 + p, a3);
    lemma_plain_concat(d + a0 + p + a1 + p + a2 + p + a3, t);
}

proof fn lemma_rules_plain(rules: Seq<(State, Symbol, State, Symbol, crate::tm::Dir)>, sb: nat, yb: nat)
    ensures
        plain(rules_code(rules, sb, yb)),
    decreases rules.len(),
{
    if rules.len() == 1 {
        lemma_rule_plain(rules[0], sb, yb);
    } else if rules.len() > 1 {
        lemma_rules_plain(rules.drop_last(), sb, yb);
        lemma_rule_plain(rules.last(), sb, yb);
        let a = rules_code(rules.drop_last(), sb, yb);
        lemma_plain_concat(a, seq![Symbol(SYM_SEMI)]);
        lemma_plain_concat(a + seq![Symbol(SYM_SEMI)], rule_code(rules.last(), sb, yb));
    }
}

proof fn lemma_accepting_plain(acc: Seq<bool>, sb: nat, upto: nat)
    ensures
        plain(accepting_code(acc, sb, upto)),
    decreases upto,
{
    if upto > 0 {
        lemma_accepting_plain(acc, sb, (upto - 1) as nat);
        let prev = accepting_code(acc, sb, (upto - 1) as nat);
        let c = bit_code((upto - 1) as nat, sb);
        lemma_plain_concat(prev, seq![Symbol(SYM_SEMI)]);
        lemma_plain_concat(prev + seq![Symbol(SYM_SEMI)], c);
    }
}

/// The text before the tape section holds tape symbols only and no `^`.
proof fn lemma_pre_cells_plain(g: &TuringMachineSpec, state: State)
    ensures
        below16(pre_cells(g, state)),
        caret_free(pre_cells(g, state)),
{
    let sb = spec_num_bits(g.n_states as nat);
    let yb = spec_num_bits(g.n_symbols as nat);
    let h = seq![Symbol(SYM_HASH)];
    let r = rules_code(g.ordered_rules@, sb, yb);
    let a = accepting_code(g.accepting@, sb, g.accepting@.len());
    let s = bit_code(state.0 as nat, sb);
    let b = bit_code(g.blank.0 as nat, yb);
    lemma_rules_plain(g.ordered_rules@, sb, yb);
    lemma_accepting_plain(g.accepting@, sb, g.accepting@.len());
    let p1 = seq![Symbol(SYM_DOLLAR), Symbol(SYM_HASH)];
    lemma_below16_concat(p1, r);
    lemma_caret_free_concat(p1, r);
    lemma_below16_concat(p1 + r, h);
    lemma_caret_free_concat(p1 + r, h);
    lemma_below16_concat(p1 + r + h, a);
    lemma_caret_free_concat(p1 + r + h, a);
    lemma_below16_concat(p1 + r + h + a, h);
    lemma_caret_free_concat(p1 + r + h + a, h);
    lemma_below16_concat(p1 + r + h + a + h, s);
    lemma_caret_free_concat(p1 + r + h + a + h, s);
    lemma_below16_concat(p1 + r + h + a + h + s, h);
    lemma_caret_free_concat(p1 + r + h + a + h + s, h);
    lemma_below16_concat(p1 + r + h + a + h + s + h, b);
    lemma_caret_free_concat(p1 + r + h + a + h + s + h, b);
    lemma_below16_concat(p1 + r + h + a + h + s + h + b, h);
    lemma_caret_free_concat(p1 + r + h + a + h + s + h + b, h);
    assert(p1 + r + h + a + h + s + h + b + h == pre_cells(g, state));
}

/// Encoding an empty input writes the text before the tape section, then
/// the head's cell, which starts with `^`.
proof fn lemma_empty_encoding(g: &TuringMachineSpec, state: State)
    ensures
        ({
            let e = encode_spec(g, Seq::empty(), 0, state);
            let pre = pre_cells(g, state);
            &&& pre.len() < e.len()
            &&& e.take(pre.len() as int) == pre
            &&& e[pre.len() as int] == Symbol(SYM_CARET)
        }),
{
    let yb = spec_num_bits(g.n_symbols as nat);
    let e = encode_spec(g, Seq::empty(), 0, state);
    let pre = pre_cells(g, state);
    let cells = cells_code(Seq::empty(), g.blank, 0, yb, 1);
    assert(tape_cells(Seq::<Symbol>::empty()) == 1);
    assert(e == pre + cells);
    assert(cells == cells_code(Seq::empty(), g.blank, 0, yb, 0) + cell_code(Seq::empty(), g.blank, 0, yb, 0));
    assert(cells[0] == Symbol(SYM_CARET));
    assert(e.take(pre.len() as int) =~= pre);
    assert(e[pre.len() as int] == cells[0]);
}

/// The header of an encoding of an empty input is the text before its
/// tape section.
pub proof fn lemma_header_is_pre_cells(g: &TuringMachineSpec, state: State, hd: Seq<Symbol>)
    requires
        is_header_of(hd, encode_spec(g, Seq::empty(), 0, state)),
    ensures
        hd == pre_cells(g, state),
{
    let e = encode_spec(g, Seq::empty(), 0, state);
    let pre = pre_cells(g, state);
    lemma_empty_encoding(g, state);
    lemma_pre_cells_plain(g, state);
    if hd.len() < pre.len() {
        assert(e[hd.len() as int] == e.take(pre.len() as int)[hd.len() as int]);
        assert(pre[hd.len() as int].0 != SYM_CARET);
    } else if hd.len() > pre.len() {
        assert(hd[pre.len() as int] == e.take(hd.len() as int)[pre.len() as int]);
        assert(hd[pre.len() as int] != Symbol(SYM_CARET));
    }
    assert(hd =~= pre) by {
        assert forall|k: int| 0 <= k < hd.len() implies hd[k] == pre[k] by {
            assert(hd[k] == e.take(hd.len() as int)[k]);
            assert(pre[k] == e.take(pre.len() as int)[k]);
        }
    }
}

/// With the head on the first cell, every cell is `yb + 1` symbols: a
/// separator (`^` for the first, `,` for the others) and the code of the
/// cell's symbol.
proof fn lemma_cells_layout(input: Seq<Symbol>, blank: Symbol, yb: nat, n: nat)
    ensures
        cells_code(input, blank, 0, yb, n).len() == n * (yb + 1),
        forall|o: int|
            0 <= o < n * (yb + 1) ==> #[trigger] cells_code(input, blank, 0, yb, n)[o] == if o % (yb + 1) as int == 0 {
                if o / (yb + 1) as int == 0 {
                    Symbol(SYM_CARET)
                } else {
                    Symbol(SYM_COMMA)
                }
            } else {
                bit_code(cell_value(input, blank, (o / (yb + 1) as int) as nat), yb)[o % (yb + 1) as int - 1]
            },
    decreases n,
{
    let m = (yb + 1) as int;
    if n > 0 {
        let k = (n - 1) as nat;
        lemma_cells_layout(input, blank, yb, k);
        let prev = cells_code(input, blank, 0, yb, k);
        let cell = cell_code(input, blank, 0, yb, k);
        let cs = cells_code(input, blank, 0, yb, n);
        lemma_binary_len(cell_value(input, blank, k), yb);
        assert(cs == prev + cell);
        assert(cell.len() == m);
        assert(k * m + m == n * m) by (nonlinear_arith)
            requires
                k + 1 == n,
        ;
        assert forall|o: int| 0 <= o < n * m implies #[trigger] cs[o] == if o % m == 0 {
            if o / m == 0 {
                Symbol(SYM_CARET)
            } else {
                Symbol(SYM_COMMA)
            }
        } else {
            bit_code(cell_value(input, blank, (o / m) as nat), yb)[o % m - 1]
        } by {
            if o < k * m {
                assert(cs[o] == prev[o]);
            } else {
                let w = o - k * m;
                assert(0 <= w < m);
                assert(o / m == k && o % m == w) by (nonlinear_arith)
                    requires
                        o == k * m + w,
                        0 <= w < m,
                        m >= 1,
                ;
                assert(cs[o] == cell[w]);
                let sep: Seq<Symbol> = if k > 0 { seq![Symbol(SYM_COMMA)] } else { Seq::empty() };
                let mark: Seq<Symbol> = if k == 0 { seq![Symbol(SYM_CARET)] } else { Seq::empty() };
                assert(cell == sep + mark + bit_code(cell_value(input, blank, k), yb));
                if w > 0 {
                    assert(cell[w] == bit_code(cell_value(input, blank, k), yb)[w - 1]);
                }
            }
        }
    }
}

/// Every position of the infinite tape holds a tape symbol.
proof fn lemma_background_below16(header: Seq<Symbol>, yb: nat, idx: nat)
    requires
        below16(header),
    ensures
        background(header, yb, yb + 1, idx).0 < 16,
    decreases idx,
{
    if idx >= header.len() {
        let m = yb + 1;
        let offset = (idx - header.len()) as nat;
        let cell = offset / m;
        let within = offset % m;
        if within != 0 {
            assert(cell < idx) by (nonlinear_arith)
                requires
                    cell == offset / m,
                    within == offset % m,
                    offset <= idx,
                    m > 0,
                    within != 0,
            ;
            lemma_background_below16(header, yb, cell);
            let v = background(header, yb, m, cell).0 as nat;
            lemma_binary_len(v, yb);
            assert(within - 1 < yb);
        }
    }
}

/// The infinite tape up to the end of cell `n - 1`: the header, then `n`
/// cells of `yb + 1` symbols.
pub open spec fn infinite_prefix(header: Seq<Symbol>, yb: nat, n: nat) -> Seq<Symbol> {
    Seq::new(header.len() + n * (yb + 1), |i: int| background(header, yb, yb + 1, i as nat))
}

/// The symbols at the first `n` positions of the infinite tape.
pub open spec fn first_symbols(header: Seq<Symbol>, yb: nat, n: nat) -> Seq<Symbol> {
    Seq::new(n, |k: int| background(header, yb, yb + 1, k as nat))
}

/// The infinite tape up to the end of cell `n - 1` is the encoding of the
/// machine, in the state its header was written with and with its head on
/// the first cell, on an input made of the tape's own first `n` symbols.
pub proof fn lemma_infinite_prefix_is_encoding(g: &TuringMachineSpec, state: State, header: Seq<Symbol>, n: nat)
    requires
        is_header_of(header, encode_spec(g, Seq::empty(), 0, state)),
        n >= 1,
    ensures
        infinite_prefix(header, spec_num_bits(g.n_symbols as nat), n) == encode_spec(
            g,
            first_symbols(header, spec_num_bits(g.n_symbols as nat), n),
            0,
            state,
        ),
{
    let yb = spec_num_bits(g.n_symbols as nat);
    let m = yb + 1;
    let input = first_symbols(header, yb, n);
    lemma_header_is_pre_cells(g, state, header);
    let cells = cells_code(input, g.blank, 0, yb, n);
    assert(tape_cells(input) == n);
    let e = encode_spec(g, input, 0, state);
    assert(e == header + cells);
    lemma_cells_layout(input, g.blank, yb, n);
    let t = infinite_prefix(header, yb, n);
    assert forall|i: int| 0 <= i < t.len() implies #[trigger] t[i] == e[i] by {
        if i < header.len() {
            assert(e[i] == header[i]);
        } else {
            let o = i - header.len();
            assert(e[i] == cells[o]);
            let cell = o / m as int;
            assert(cell < n) by (nonlinear_arith)
                requires
                    0 <= o < n * m,
                    cell == o / m as int,
                    m >= 1,
            ;
            assert(cell_value(input, g.blank, cell as nat) == background(header, yb, m, cell as nat).0 as nat);
        }
    }
    assert(t =~= e);
}

/// The infinite tape of the universal machine decodes to itself: for
/// every `n`, the tape up to the end of cell `n - 1` reads back as the
/// machine in its initial state with its head on the first cell, and with
/// a tape holding the infinite tape's own first `n` symbols.
pub proof fn lemma_infinite_byte_tape_decodes_to_itself(utm: &TuringMachineSpec, header: Seq<Symbol>, n: nat)
    requires
        crate::byte_utm::is_utm_shape(utm),
        is_header_of(header, encode_spec(utm, Seq::empty(), 0, utm.initial)),
        n >= 1,
    ensures
        ({
            let yb = spec_num_bits(utm.n_symbols as nat);
            let t = infinite_prefix(header, yb, n);
            let v = tape_view(t);
            let h = hash_positions(v);
            &&& byte_decodable(utm, t)
            &&& symbols_value(v, h[2] + 1, spec_num_bits(utm.n_states as nat)) == utm.initial.0
            &&& parse_cells(v, yb, h[4] + 1, 0, Seq::empty(), 0) == (
                Seq::new(n, |k: int| background(header, yb, yb + 1, k as nat).0 as nat),
                0nat,
            )
        }),
{
    let yb = spec_num_bits(utm.n_symbols as nat);
    let input = first_symbols(header, yb, n);
    lemma_infinite_prefix_is_encoding(utm, utm.initial, header, n);
    lemma_header_is_pre_cells(utm, utm.initial, header);
    lemma_pre_cells_plain(utm, utm.initial);
    assert forall|i: int| 0 <= i < input.len() implies (#[trigger] input[i].0 as nat) < utm.n_symbols by {
        lemma_background_below16(header, yb, i as nat);
    }
    assert(tape_cells(input) == n);
    lemma_byte_decode_encode(utm, input, 0, utm.initial);
    assert(written_codes(input, utm.blank) =~= Seq::new(n, |k: int| background(header, yb, yb + 1, k as nat).0 as nat));
}

} // verus!
