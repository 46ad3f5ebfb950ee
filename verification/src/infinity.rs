//! The infinite tape of a universal machine that simulates itself.
//!
//! The tape is `HEADER ^cell0 ,cell1 ,cell2 ...`, where the header is the
//! encoding of the machine before its tape section and `cell_k` holds the
//! code of the tape's own symbol at position `k`.  Cell `k` lies after
//! position `k`, so every symbol is defined by the ones before it: the
//! tape is a fixed point that can be computed left to right.
use vstd::prelude::*;

use crate::binary::{
    all_bits, binary, bit_symbol, bits_symbols, lemma_binary_len, lemma_binary_value, lemma_num_bits,
    lemma_symbols_value_of_bits, num_bits, spec_num_bits, symbol_bit, symbols_value, to_binary, two_pow,
};
use crate::compiled::{find_position, position, CSymbol, CompiledTuringMachineSpec};
use crate::encoding::{
    decoded_guest, hash_positions, header_spec, parse_cells, parse_ok, rules_view, tape_decodable, tm_within,
    MyUtmSpecOptimizationHints,
};
use crate::roundtrip::{free_of, lemma_header_layout};
use crate::tm::{closed, extended, RunningTuringMachine, TapeExtender, TmConfig, TuringMachineSpec};
use crate::utm::MyUtmSpec;
use crate::utm_symbols::Symbol;

verus! {

/// The symbol at position `i` of the infinite tape with this header, cell
/// width `w` and symbol list (the code of a symbol is its position).
pub open spec fn tape_at(header: Seq<Symbol>, symbols: Seq<Symbol>, w: nat, i: nat) -> Symbol
    decreases i,
{
    if i < header.len() {
        header[i as int]
    } else if w < 2 {
        Symbol::Blank
    } else {
        let offset = (i - header.len()) as nat;
        let cell = offset / w;
        let within = offset % w;
        if within == 0 {
            if cell == 0 {
                Symbol::Caret
            } else {
                Symbol::Comma
            }
        } else {
            proof {
                if offset == 0 {
                    vstd::arithmetic::div_mod::lemma_small_mod(0, w);
                }
                vstd::arithmetic::div_mod::lemma_div_decreases(offset as int, w as int);
            }
            let sym = tape_at(header, symbols, w, cell);
            bit_symbol(binary(position(symbols, sym) as nat, (w - 1) as nat)[within - 1])
        }
    }
}

/// The first `n` symbols of the infinite tape.
pub open spec fn tape_prefix(header: Seq<Symbol>, symbols: Seq<Symbol>, w: nat, n: nat) -> Seq<Symbol> {
    Seq::new(n, |i: int| tape_at(header, symbols, w, i as nat))
}

/// The infinite tape of a universal machine simulating itself.
pub struct InfiniteTape {
    header: Vec<Symbol>,
    symbol_encodings: Vec<Symbol>,
    /// One marker and the bits of a symbol's code.
    cell_width: usize,
}

impl InfiniteTape {
    /// Everything before the tape section.
    pub closed spec fn header_view(&self) -> Seq<Symbol> {
        self.header@
    }

    /// The symbols; the code of a symbol is its position.
    pub closed spec fn symbols_view(&self) -> Seq<Symbol> {
        self.symbol_encodings@
    }

    /// The length of a cell.
    pub closed spec fn width(&self) -> nat {
        self.cell_width as nat
    }

    /// The symbol at position `i`.
    pub open spec fn at(&self, i: nat) -> Symbol {
        tape_at(self.header_view(), self.symbols_view(), self.width(), i)
    }

    /// Every symbol has a code, and a cell holds a marker and a code.
    pub closed spec fn inv(&self) -> bool {
        &&& self.symbol_encodings@.no_duplicates()
        &&& forall|y: Symbol| self.symbol_encodings@.contains(y)
        &&& self.cell_width == 1 + spec_num_bits(self.symbol_encodings@.len())
    }

    /// The infinite tape for a universal machine described by `encoder`'s
    /// guest, which must know every symbol.
    pub fn new(encoder: &MyUtmSpecOptimizationHints<MyUtmSpec>) -> (r: Self)
        requires
            encoder.wf(),
            forall|y: Symbol| encoder.guest.spec_symbols().contains(y),
        ensures
            r.inv(),
            r.header_view() == header_spec(encoder.guest, rules_view(encoder.rules@), encoder.guest.spec_initial()),
            r.symbols_view() == encoder.guest.spec_symbols(),
            r.width() == 1 + spec_num_bits(encoder.guest.spec_symbols().len()),
    {
        let g = encoder.guest;
        let start = RunningTuringMachine::new(g);
        let dummy = encoder.encode(&start);
        let ghost header = header_spec(g, rules_view(encoder.rules@), g.spec_initial());
        proof {
            lemma_header_layout(g, rules_view(encoder.rules@), g.spec_initial(), Seq::empty());
            assert(header + Seq::<Symbol>::empty() =~= header);
            let ys = g.spec_symbols();
            let cells = crate::encoding::symbol_codes(ys, crate::encoding::written_cells(start.tape@, g.spec_blank()));
            assert(cells.len() == 1);
            crate::encoding::lemma_cells_section_start(cells, spec_num_bits(ys.len()));
            assert(dummy@[header.len() as int] == Symbol::Caret);
        }
        // The header: everything before the first `^`.
        let mut caret_pos: usize = 0;
        while caret_pos < dummy.len() && dummy[caret_pos] != Symbol::Caret
            invariant
                caret_pos <= header.len(),
                header.len() < dummy@.len(),
                dummy@.subrange(0, header.len() as int) == header,
                dummy@[header.len() as int] == Symbol::Caret,
                free_of(header, Symbol::Caret),
            decreases dummy.len() - caret_pos,
        {
            assert(dummy@[caret_pos as int] == header[caret_pos as int]);
            caret_pos = caret_pos + 1;
        }
        let mut prefix: Vec<Symbol> = Vec::new();
        let mut i: usize = 0;
        while i < caret_pos
            invariant
                i <= caret_pos,
                caret_pos == header.len(),
                header.len() < dummy@.len(),
                dummy@.subrange(0, header.len() as int) == header,
                prefix@ == header.take(i as int),
            decreases caret_pos - i,
        {
            assert(dummy@[i as int] == header[i as int]);
            prefix.push(dummy[i]);
            assert(prefix@ =~= header.take(i + 1));
            i = i + 1;
        }
        assert(prefix@ =~= header);
        let symbol_encodings = crate::tm::copy_vec(&encoder.symbol_encodings);
        let n_sym_bits = num_bits(symbol_encodings.len());
        let r = InfiniteTape { header: prefix, symbol_encodings, cell_width: 1 + n_sym_bits };
        proof {
            assert forall|y: Symbol| r.symbol_encodings@.contains(y) by {
                assert(g.spec_symbols().contains(y));
            }
        }
        r
    }

    /// The symbol at position `index`.
    pub fn get(&self, index: usize) -> (r: Symbol)
        requires
            self.inv(),
        ensures
            r == self.at(index as nat),
        decreases index,
    {
        let h = self.header.len();
        if index < h {
            return self.header[index];
        }
        proof {
            lemma_num_bits(self.symbol_encodings@.len());
        }
        let w = self.cell_width;
        let offset = index - h;
        let cell_index = offset / w;
        let within = offset % w;
        if within == 0 {
            if cell_index == 0 {
                Symbol::Caret
            } else {
                Symbol::Comma
            }
        } else {
            proof {
                if offset == 0 {
                    vstd::arithmetic::div_mod::lemma_small_mod(0, w as nat);
                }
                vstd::arithmetic::div_mod::lemma_div_decreases(offset as int, w as int);
            }
            let sym = self.get(cell_index);
            let code = find_position(&self.symbol_encodings, &sym);
            let bits = to_binary(code, w - 1);
            proof {
                lemma_binary_len(code as nat, (w - 1) as nat);
            }
            if bits[within - 1] {
                Symbol::One
            } else {
                Symbol::Zero
            }
        }
    }

    /// The length of the header.
    pub fn header_len(&self) -> (r: usize)
        ensures
            r == self.header_view().len(),
    {
        self.header.len()
    }

    /// The symbol after the first `cache.len()` symbols, which `cache` holds.
    fn next_symbol(&self, cache: &Vec<Symbol>) -> (r: Symbol)
        requires
            self.inv(),
            cache@ == tape_prefix(self.header_view(), self.symbols_view(), self.width(), cache@.len()),
        ensures
            r == self.at(cache@.len()),
    {
        let index = cache.len();
        let h = self.header.len();
        if index < h {
            return self.header[index];
        }
        proof {
            lemma_num_bits(self.symbol_encodings@.len());
        }
        let w = self.cell_width;
        let offset = index - h;
        let cell_index = offset / w;
        let within = offset % w;
        if within == 0 {
            if cell_index == 0 {
                Symbol::Caret
            } else {
                Symbol::Comma
            }
        } else {
            proof {
                if offset == 0 {
                    vstd::arithmetic::div_mod::lemma_small_mod(0, w as nat);
                }
                vstd::arithmetic::div_mod::lemma_div_decreases(offset as int, w as int);
            }
            let sym = cache[cell_index];
            let code = find_position(&self.symbol_encodings, &sym);
            let bits = to_binary(code, w - 1);
            proof {
                lemma_binary_len(code as nat, (w - 1) as nat);
            }
            if bits[within - 1] {
                Symbol::One
            } else {
                Symbol::Zero
            }
        }
    }

    /// The first `n` symbols of the tape.
    pub fn prefix(&self, n: usize) -> (r: Vec<Symbol>)
        requires
            self.inv(),
        ensures
            r@ == tape_prefix(self.header_view(), self.symbols_view(), self.width(), n as nat),
    {
        let mut cache: Vec<Symbol> = Vec::new();
        while cache.len() < n
            invariant
                self.inv(),
                cache@.len() <= n,
                cache@ == tape_prefix(self.header_view(), self.symbols_view(), self.width(), cache@.len()),
            decreases n - cache@.len(),
        {
            let s = self.next_symbol(&cache);
            cache.push(s);
            assert(cache@ =~= tape_prefix(self.header_view(), self.symbols_view(), self.width(), cache@.len()));
        }
        cache
    }

    /// Appends the tape's symbols from position `dst.len()` up to position
    /// `index`; a `dst` that long already is left as it is.
    pub fn extend(&self, dst: &mut Vec<Symbol>, index: usize)
        requires
            self.inv(),
        ensures
            final(dst)@ == if old(dst)@.len() >= index {
                old(dst)@
            } else {
                old(dst)@ + Seq::new(
                    (index - old(dst)@.len()) as nat,
                    |k: int| self.at((old(dst)@.len() + k) as nat),
                )
            },
    {
        if dst.len() >= index {
            return;
        }
        let cache = self.prefix(index);
        let start = dst.len();
        let ghost base = dst@;
        let mut i: usize = start;
        while i < index
            invariant
                start <= i <= index,
                start == base.len(),
                cache@ == tape_prefix(self.header_view(), self.symbols_view(), self.width(), index as nat),
                dst@ =~= base + Seq::new((i - start) as nat, |k: int| self.at((start + k) as nat)),
            decreases index - i,
        {
            dst.push(cache[i]);
            i = i + 1;
        }
    }

    /// Appends the compiled symbols of the tape from position `dst.len()`
    /// up to position `index`; a `dst` that long already is left as it is.
    pub fn extend_compiled(
        &self,
        dst: &mut Vec<CSymbol>,
        index: usize,
        spec: &CompiledTuringMachineSpec<MyUtmSpec>,
    )
        requires
            self.inv(),
            forall|y: Symbol| spec.original_symbols@.contains(y),
            spec.original_symbols@.no_duplicates(),
            spec.original_symbols@.len() <= 256,
        ensures
            final(dst)@ == if old(dst)@.len() >= index {
                old(dst)@
            } else {
                old(dst)@ + Seq::new(
                    (index - old(dst)@.len()) as nat,
                    |k: int| CSymbol(position(spec.original_symbols@, self.at((old(dst)@.len() + k) as nat)) as u8),
                )
            },
    {
        if dst.len() >= index {
            return;
        }
        let cache = self.prefix(index);
        let start = dst.len();
        let ghost base = dst@;
        let mut i: usize = start;
        while i < index
            invariant
                start <= i <= index,
                start == base.len(),
                cache@ == tape_prefix(self.header_view(), self.symbols_view(), self.width(), index as nat),
                forall|y: Symbol| spec.original_symbols@.contains(y),
                spec.original_symbols@.no_duplicates(),
                spec.original_symbols@.len() <= 256,
                dst@ =~= base + Seq::new(
                    (i - start) as nat,
                    |k: int| CSymbol(position(spec.original_symbols@, self.at((start + k) as nat)) as u8),
                ),
            decreases index - i,
        {
            let c = spec.compile_symbol(cache[i]);
            dst.push(c);
            i = i + 1;
        }
    }
}

/// Grows a tape of the universal machine with the infinite tape's symbols.
pub struct InfiniteTapeExtender<'a> {
    pub background: &'a InfiniteTape,
}

impl<'a> TapeExtender<Symbol> for InfiniteTapeExtender<'a> {
    open spec fn cell(&self, i: nat) -> Symbol {
        self.background.at(i)
    }

    open spec fn can_extend(&self) -> bool {
        self.background.inv()
    }

    fn extend(&mut self, tape: &mut Vec<Symbol>, min_size: usize) {
        self.background.extend(tape, min_size);
        assert(tape@ =~= extended(old(tape)@, min_size as nat, |i: nat| self.cell(i)));
    }
}

/// Grows a tape of the compiled universal machine with the compiled
/// symbols of the infinite tape.
pub struct CompiledTapeExtender<'a> {
    pub background: &'a InfiniteTape,
    pub spec: &'a CompiledTuringMachineSpec<'a, MyUtmSpec>,
}

impl<'a> TapeExtender<CSymbol> for CompiledTapeExtender<'a> {
    open spec fn cell(&self, i: nat) -> CSymbol {
        CSymbol(position(self.spec.original_symbols@, self.background.at(i)) as u8)
    }

    open spec fn can_extend(&self) -> bool {
        &&& self.background.inv()
        &&& forall|y: Symbol| self.spec.original_symbols@.contains(y)
        &&& self.spec.original_symbols@.no_duplicates()
        &&& self.spec.original_symbols@.len() <= 256
    }

    fn extend(&mut self, tape: &mut Vec<CSymbol>, min_size: usize) {
        self.background.extend_compiled(tape, min_size, self.spec);
        assert(tape@ =~= extended(old(tape)@, min_size as nat, |i: nat| self.cell(i)));
    }
}

/// The codes of the first `m` symbols of the infinite tape.
pub open spec fn tape_codes(header: Seq<Symbol>, symbols: Seq<Symbol>, w: nat, m: nat) -> Seq<nat> {
    Seq::new(m, |k: int| position(symbols, tape_at(header, symbols, w, k as nat)) as nat)
}

/// Where position `p` of the tape section falls: cell `p / w`, at `p % w`.
proof fn lemma_tape_at_section(header: Seq<Symbol>, symbols: Seq<Symbol>, w: nat, cell: nat, within: nat)
    requires
        w >= 2,
        within < w,
    ensures
        ({
            let i = header.len() + cell * w + within;
            &&& within == 0 && cell == 0 ==> tape_at(header, symbols, w, i) == Symbol::Caret
            &&& within == 0 && cell > 0 ==> tape_at(header, symbols, w, i) == Symbol::Comma
            &&& within > 0 ==> tape_at(header, symbols, w, i) == bit_symbol(
                binary(position(symbols, tape_at(header, symbols, w, cell)) as nat, (w - 1) as nat)[within - 1],
            )
        }),
{
    let offset = cell * w + within;
    assert(0 <= cell * w) by (nonlinear_arith)
        requires
            w >= 2,
    ;
    vstd::arithmetic::div_mod::lemma_fundamental_div_mod_converse(offset as int, w as int, cell as int, within as int);
}

/// Reading the tape section of the first `n` symbols of the infinite tape
/// cell by cell from cell `k` gives the codes of its complete cells, with
/// the head on the first cell.
proof fn lemma_parse_infinite(header: Seq<Symbol>, symbols: Seq<Symbol>, w: nat, n: nat, k: nat)
    requires
        w == 1 + spec_num_bits(symbols.len()),
        forall|y: Symbol| symbols.contains(y),
        n >= header.len(),
        k <= (n - header.len()) as nat / w,
    ensures
        ({
            let t = tape_prefix(header, symbols, w, n);
            let m = (n - header.len()) as nat / w;
            let p = (header.len() + k * w) as int;
            let cell: nat = if k == 0 {
                0
            } else {
                (k - 1) as nat
            };
            &&& parse_cells(t, (w - 1) as nat, p, cell, tape_codes(header, symbols, w, m).take(k as int), 0) == (
            tape_codes(header, symbols, w, m), 0nat)
            &&& parse_ok(t, (w - 1) as nat, p, symbols.len())
        }),
    decreases (n - header.len()) as nat / w - k,
{
    let t = tape_prefix(header, symbols, w, n);
    let h = header.len();
    let yb = (w - 1) as nat;
    lemma_num_bits(symbols.len());
    let m = (n - h) as nat / w;
    let r = (n - h) as nat % w;
    let codes = tape_codes(header, symbols, w, m);
    let p = (h + k * w) as int;
    let cell: nat = if k == 0 {
        0
    } else {
        (k - 1) as nat
    };
    vstd::arithmetic::div_mod::lemma_fundamental_div_mod((n - h) as int, w as int);
    assert(0 <= r < w) by {
        vstd::arithmetic::div_mod::lemma_mod_pos_bound((n - h) as int, w as int);
    }
    assert(m * w + r == n - h);
    assert(k * w <= m * w) by (nonlinear_arith)
        requires
            k <= m,
            w >= 2,
    ;
    assert(0 <= k * w) by (nonlinear_arith)
        requires
            w >= 2,
    ;
    lemma_tape_at_section(header, symbols, w, k, 0);
    if k == m {
        assert(codes.take(k as int) =~= codes);
        if p < n {
            assert(t[p] == tape_at(header, symbols, w, p as nat));
            if p + 1 < n {
                lemma_tape_at_section(header, symbols, w, k, 1);
                assert(t[p + 1] == tape_at(header, symbols, w, (p + 1) as nat));
                assert(symbol_bit(t[p + 1]) is Some);
                assert(p + 1 + yb > n);
                assert(parse_cells(t, yb, p, cell, codes, 0) == parse_cells(t, yb, p + 1, k, codes, 0));
                assert(parse_ok(t, yb, p, symbols.len()) == parse_ok(t, yb, p + 1, symbols.len()));
            } else {
                assert(parse_cells(t, yb, p, cell, codes, 0) == parse_cells(t, yb, p + 1, k, codes, 0));
                assert(parse_ok(t, yb, p, symbols.len()) == parse_ok(t, yb, p + 1, symbols.len()));
            }
        }
    } else {
        assert((k + 1) * w == k * w + w) by (nonlinear_arith);
        assert((k + 1) * w <= m * w) by (nonlinear_arith)
            requires
                k + 1 <= m,
                w >= 2,
        ;
        assert(p + w <= n);
        assert(t[p] == tape_at(header, symbols, w, p as nat));
        let sym = tape_at(header, symbols, w, k);
        assert(symbols.contains(sym));
        let code = position(symbols, sym) as nat;
        assert(code == codes[k as int]);
        assert(code < symbols.len());
        let bits = binary(code, yb);
        lemma_binary_value(code, yb);
        assert(t.subrange(p + 1, p + 1 + yb) =~= bits_symbols(bits)) by {
            assert forall|b: int| 0 <= b < yb implies #[trigger] t.subrange(p + 1, p + 1 + yb)[b] == bits_symbols(
                bits,
            )[b] by {
                lemma_tape_at_section(header, symbols, w, k, (1 + b) as nat);
                assert(t[p + 1 + b] == tape_at(header, symbols, w, (p + 1 + b) as nat));
            }
        }
        lemma_symbols_value_of_bits(t, p + 1, bits);
        assert(symbol_bit(t[p + 1]) is Some);
        lemma_parse_infinite(header, symbols, w, n, k + 1);
        assert(codes.take(k as int).push(codes[k as int]) =~= codes.take(k + 1int));
        assert(h + (k + 1) * w == p + 1 + yb);
        assert(parse_cells(t, yb, p + 1, k, codes.take(k as int), 0) == parse_cells(
            t,
            yb,
            p + 1 + yb,
            k,
            codes.take(k + 1int),
            0,
        ));
        assert(parse_cells(t, yb, p, cell, codes.take(k as int), 0) == parse_cells(
            t,
            yb,
            p + 1,
            k,
            codes.take(k as int),
            0,
        ));
        assert(parse_ok(t, yb, p + 1, symbols.len()) == parse_ok(t, yb, p + 1 + yb, symbols.len()));
    }
}

/// The infinite tape is a fixed point of decoding: decoding its first
/// `n` symbols, `n` at least the header's length, gives the machine in its
/// initial state, the head on the first cell, and as its tape the infinite
/// tape's own first symbols, one per complete cell.
pub proof fn lemma_infinite_tape_decodes_to_itself(
    tape: &InfiniteTape,
    encoder: &MyUtmSpecOptimizationHints<MyUtmSpec>,
    n: nat,
)
    requires
        encoder.wf(),
        forall|y: Symbol| encoder.guest.spec_symbols().contains(y),
        tape.inv(),
        tape.header_view() == header_spec(encoder.guest, rules_view(encoder.rules@), encoder.guest.spec_initial()),
        tape.symbols_view() == encoder.guest.spec_symbols(),
        n >= tape.header_view().len(),
    ensures
        ({
            let header = tape.header_view();
            let symbols = tape.symbols_view();
            let w = tape.width();
            let t = tape_prefix(header, symbols, w, n);
            &&& hash_positions(t).len() == 4
            &&& tape_decodable(encoder.guest.spec_states(), symbols, t)
            &&& decoded_guest(encoder.guest.spec_states(), symbols, t) == TmConfig {
                state: encoder.guest.spec_initial(),
                pos: 0,
                tape: tape_prefix(header, symbols, w, (n - header.len()) as nat / w),
            }
        }),
{
    let g = encoder.guest;
    let header = tape.header_view();
    let symbols = tape.symbols_view();
    let w = tape.width();
    let h = header.len();
    let t = tape_prefix(header, symbols, w, n);
    lemma_num_bits(symbols.len());
    let rest = t.subrange(h as int, n as int);
    assert(t =~= header + rest);
    assert(free_of(rest, Symbol::Hash)) by {
        assert forall|j: int| 0 <= j < rest.len() implies rest[j] != Symbol::Hash by {
            let i = (h + j) as nat;
            assert(rest[j] == tape_at(header, symbols, w, i));
            let offset = (i - h) as nat;
            vstd::arithmetic::div_mod::lemma_fundamental_div_mod(offset as int, w as int);
            vstd::arithmetic::div_mod::lemma_mod_pos_bound(offset as int, w as int);
            lemma_tape_at_section(header, symbols, w, offset / w, offset % w);
        }
    }
    assert(g.spec_states().contains(g.spec_initial()));
    lemma_header_layout(g, rules_view(encoder.rules@), g.spec_initial(), rest);
    let m = (n - h) as nat / w;
    lemma_parse_infinite(header, symbols, w, n, 0);
    let codes = tape_codes(header, symbols, w, m);
    assert(codes.take(0) =~= Seq::<nat>::empty());
    assert(h + 0 * w == h);
    let back = codes.map_values(|c: nat| symbols[c as int]);
    assert(back =~= tape_prefix(header, symbols, w, m)) by {
        assert forall|k: int| 0 <= k < m implies #[trigger] back[k] == tape_prefix(header, symbols, w, m)[k] by {
            let sym = tape_at(header, symbols, w, k as nat);
            assert(symbols.contains(sym));
        }
    }
}

} // verus!
