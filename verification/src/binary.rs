//! Fixed-width binary codes, as bits and as tape symbols.
use vstd::prelude::*;

use crate::utm_symbols::Symbol;

verus! {

/// Two to the power `e`.
pub open spec fn two_pow(e: nat) -> nat
    decreases e,
{
    if e == 0 {
        1
    } else {
        2 * two_pow((e - 1) as nat)
    }
}

/// The width of the codes that tell `count` things apart: the smallest
/// width of at least one bit with `count <= 2^width`.
pub open spec fn spec_num_bits(count: nat) -> nat
    decreases count,
{
    if count <= 2 {
        1
    } else {
        1 + spec_num_bits(((count - 1) as nat / 2 + 1) as nat)
    }
}

pub proof fn lemma_two_pow_positive(e: nat)
    ensures
        two_pow(e) >= 1,
    decreases e,
{
    if e > 0 {
        lemma_two_pow_positive((e - 1) as nat);
    }
}

pub proof fn lemma_two_pow_monotone(a: nat, b: nat)
    requires
        a <= b,
    ensures
        two_pow(a) <= two_pow(b),
    decreases b,
{
    if a < b {
        lemma_two_pow_monotone(a, (b - 1) as nat);
        lemma_two_pow_positive((b - 1) as nat);
    }
}

/// `num_bits` is the least width that is enough.
pub proof fn lemma_num_bits(count: nat)
    ensures
        spec_num_bits(count) >= 1,
        count <= two_pow(spec_num_bits(count)),
        count > 2 ==> two_pow((spec_num_bits(count) - 1) as nat) < count,
    decreases count,
{
    if count > 2 {
        let h = ((count - 1) as nat / 2 + 1) as nat;
        lemma_num_bits(h);
        let b = spec_num_bits(h);
        assert(spec_num_bits(count) == 1 + b);
        assert(2 * h >= count);
        assert(two_pow(b + 1) == 2 * two_pow(b));
        if h > 2 {
            assert(two_pow(b) == 2 * two_pow((b - 1) as nat));
            assert(two_pow(b) < count);
        } else {
            assert(two_pow(0) == 1);
            assert(two_pow(1) == 2);
        }
    } else {
        assert(two_pow(0) == 1);
        assert(two_pow(1) == 2);
    }
}

/// The number of bits of the codes that tell `count` things apart.
pub fn num_bits(count: usize) -> (r: usize)
    ensures
        r as nat == spec_num_bits(count as nat),
        1 <= r <= 64,
    decreases count,
{
    if count <= 2 {
        1
    } else {
        let r = 1 + num_bits((count - 1) / 2 + 1);
        proof {
            lemma_num_bits(count as nat);
            lemma_num_bits_small(count as nat);
        }
        r
    }
}

proof fn lemma_num_bits_small(count: nat)
    requires
        count <= usize::MAX,
    ensures
        spec_num_bits(count) <= 64,
{
    lemma_num_bits(count);
    if spec_num_bits(count) > 64 {
        lemma_two_pow_monotone(64, (spec_num_bits(count) - 1) as nat);
        lemma_two_pow_64();
    }
}

proof fn lemma_two_pow_64()
    ensures
        two_pow(64) > usize::MAX,
{
    reveal_with_fuel(two_pow, 65);
    assert(two_pow(64) == 0x1_0000_0000_0000_0000);
}

/// The `width`-bit binary code of `index`, most significant bit first.
pub open spec fn binary(index: nat, width: nat) -> Seq<bool>
    decreases width,
{
    if width == 0 {
        Seq::empty()
    } else {
        binary(index / 2, (width - 1) as nat).push(index % 2 == 1)
    }
}

/// The number that bits stand for, most significant bit first.
pub open spec fn bits_value(bits: Seq<bool>) -> nat
    decreases bits.len(),
{
    if bits.len() == 0 {
        0
    } else {
        2 * bits_value(bits.drop_last()) + if bits.last() { 1nat } else { 0nat }
    }
}

pub proof fn lemma_binary_len(index: nat, width: nat)
    ensures
        binary(index, width).len() == width,
    decreases width,
{
    if width > 0 {
        lemma_binary_len(index / 2, (width - 1) as nat);
    }
}

/// Reading a code back gives the number it codes.
pub proof fn lemma_binary_value(index: nat, width: nat)
    requires
        index < two_pow(width),
    ensures
        bits_value(binary(index, width)) == index,
        binary(index, width).len() == width,
    decreases width,
{
    lemma_binary_len(index, width);
    if width > 0 {
        lemma_binary_value(index / 2, (width - 1) as nat);
        assert(binary(index, width).drop_last() =~= binary(index / 2, (width - 1) as nat));
    }
}

/// The low `width` bits of `index`, most significant first.
pub fn low_bits(index: usize, width: usize) -> (r: Vec<bool>)
    ensures
        r@ == binary(index as nat, width as nat),
    decreases width,
{
    if width == 0 {
        Vec::new()
    } else {
        let mut v = low_bits(index / 2, width - 1);
        v.push(index % 2 == 1);
        v
    }
}

/// The `width`-bit code of `index`, most significant bit first; the index
/// must fit in that many bits.
pub fn to_binary(index: usize, width: usize) -> (r: Vec<bool>)
    requires
        index < two_pow(width as nat),
    ensures
        r@ == binary(index as nat, width as nat),
        bits_value(r@) == index,
        r@.len() == width,
{
    proof {
        lemma_binary_value(index as nat, width as nat);
    }
    low_bits(index, width)
}

/// The tape symbol of a bit.
pub open spec fn bit_symbol(b: bool) -> Symbol {
    if b {
        Symbol::One
    } else {
        Symbol::Zero
    }
}

/// The tape symbols of some bits.
pub open spec fn bits_symbols(bits: Seq<bool>) -> Seq<Symbol> {
    bits.map_values(|b: bool| bit_symbol(b))
}

/// The tape symbols of a list of bits.
pub fn bitstring_to_symbols(bits: &Vec<bool>) -> (r: Vec<Symbol>)
    ensures
        r@ == bits_symbols(bits@),
{
    let mut r: Vec<Symbol> = Vec::new();
    let mut i: usize = 0;
    while i < bits.len()
        invariant
            i <= bits@.len(),
            r@ == bits_symbols(bits@.take(i as int)),
        decreases bits.len() - i,
    {
        r.push(if bits[i] { Symbol::One } else { Symbol::Zero });
        assert(bits_symbols(bits@.take(i + 1)) =~= bits_symbols(bits@.take(i as int)).push(
            bit_symbol(bits@[i as int]),
        ));
        i = i + 1;
    }
    assert(bits@.take(i as int) =~= bits@);
    r
}

/// The bit that a tape symbol stands for: marked bits count as bits.
pub open spec fn symbol_bit(s: Symbol) -> Option<bool> {
    match s {
        Symbol::Zero | Symbol::X => Some(false),
        Symbol::One | Symbol::Y => Some(true),
        _ => None,
    }
}

/// Whether every symbol in `tape[start..start + width]` stands for a bit.
pub open spec fn all_bits(tape: Seq<Symbol>, start: int, width: int) -> bool {
    &&& 0 <= start
    &&& 0 <= width
    &&& start + width <= tape.len()
    &&& forall|k: int| start <= k < start + width ==> (symbol_bit(#[trigger] tape[k]) is Some)
}

/// The number that `tape[start..start + width]` codes.
pub open spec fn symbols_value(tape: Seq<Symbol>, start: int, width: nat) -> nat
    decreases width,
{
    if width == 0 {
        0
    } else {
        2 * symbols_value(tape, start, (width - 1) as nat) + if symbol_bit(tape[start + width - 1])
            == Some(true) {
            1nat
        } else {
            0nat
        }
    }
}

/// Reads the number coded at `tape[start..start + width]`.
pub fn from_binary_at(tape: &[Symbol], start: usize, width: usize) -> (r: usize)
    requires
        all_bits(tape@, start as int, width as int),
        symbols_value(tape@, start as int, width as nat) <= usize::MAX,
    ensures
        r as nat == symbols_value(tape@, start as int, width as nat),
{
    let n = tape.len();
    let mut val: usize = 0;
    let mut i: usize = 0;
    while i < width
        invariant
            i <= width,
            n == tape@.len(),
            all_bits(tape@, start as int, width as int),
            symbols_value(tape@, start as int, width as nat) <= usize::MAX,
            val as nat == symbols_value(tape@, start as int, i as nat),
        decreases width - i,
    {
        proof {
            lemma_symbols_value_monotone(tape@, start as int, (i + 1) as nat, width as nat);
        }
        let b = tape[start + i];
        let bit: usize = if b == Symbol::One || b == Symbol::Y { 1 } else { 0 };
        assert(symbols_value(tape@, start as int, (i + 1) as nat) == 2 * val + bit);
        val = val * 2 + bit;
        i = i + 1;
    }
    val
}

pub proof fn lemma_symbols_value_monotone(tape: Seq<Symbol>, start: int, a: nat, b: nat)
    requires
        a <= b,
    ensures
        symbols_value(tape, start, a) <= symbols_value(tape, start, b),
    decreases b,
{
    if a < b {
        lemma_symbols_value_monotone(tape, start, a, (b - 1) as nat);
    }
}

/// The code of a number, written on the tape, reads back as its bits.
pub proof fn lemma_symbols_value_of_bits(tape: Seq<Symbol>, start: int, bits: Seq<bool>)
    requires
        0 <= start,
        start + bits.len() <= tape.len(),
        tape.subrange(start, start + bits.len()) == bits_symbols(bits),
    ensures
        all_bits(tape, start, bits.len() as int),
        symbols_value(tape, start, bits.len()) == bits_value(bits),
    decreases bits.len(),
{
    assert forall|k: int| start <= k < start + bits.len() implies (symbol_bit(#[trigger] tape[k]) is Some) by {
        assert(tape[k] == tape.subrange(start, start + bits.len())[k - start]);
    }
    if bits.len() > 0 {
        let n = bits.len();
        assert(tape.subrange(start, start + n - 1) =~= bits_symbols(bits.drop_last()));
        lemma_symbols_value_of_bits(tape, start, bits.drop_last());
        assert(tape[start + n - 1] == tape.subrange(start, start + n)[n - 1]);
    }
}

/// Whether `tape[start..start + width]` is made of bits and codes a number
/// below `bound`.
pub fn code_below(tape: &[Symbol], start: usize, width: usize, bound: usize) -> (r: bool)
    ensures
        r == (all_bits(tape@, start as int, width as int) && symbols_value(tape@, start as int, width as nat)
            < bound),
{
    let n = tape.len();
    if start > n || width > n - start || bound == 0 {
        return false;
    }
    let mut k: usize = 0;
    while k < width
        invariant
            n == tape@.len(),
            start + width <= n,
            k <= width,
            forall|q: int| start <= q < start + k ==> (symbol_bit(#[trigger] tape@[q]) is Some),
        decreases width - k,
    {
        let s = tape[start + k];
        if !(s == Symbol::Zero || s == Symbol::X || s == Symbol::One || s == Symbol::Y) {
            assert(symbol_bit(tape@[start + k]) is None);
            return false;
        }
        k = k + 1;
    }
    assert(all_bits(tape@, start as int, width as int));
    let mut val: u128 = 0;
    let mut i: usize = 0;
    while i < width
        invariant
            n == tape@.len(),
            all_bits(tape@, start as int, width as int),
            i <= width,
            val as nat == symbols_value(tape@, start as int, i as nat),
            val < bound,
        decreases width - i,
    {
        let b = tape[start + i];
        let bit: u128 = if b == Symbol::One || b == Symbol::Y { 1 } else { 0 };
        assert(symbols_value(tape@, start as int, (i + 1) as nat) == 2 * val + bit);
        let next = val * 2 + bit;
        if next >= bound as u128 {
            proof {
                lemma_symbols_value_monotone(tape@, start as int, (i + 1) as nat, width as nat);
            }
            return false;
        }
        val = next;
        i = i + 1;
    }
    true
}

/// A code of `width` symbols stands for a number below `2^width`.
pub proof fn lemma_symbols_value_bound(tape: Seq<Symbol>, start: int, width: nat)
    ensures
        symbols_value(tape, start, width) < two_pow(width),
    decreases width,
{
    if width > 0 {
        lemma_symbols_value_bound(tape, start, (width - 1) as nat);
    }
}

} // verus!
