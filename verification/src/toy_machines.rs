//! Small machines for trying out the universal machine.
use vstd::prelude::*;

use crate::tm::{
    closed, index_bound, lemma_index_bound_at_most, lookup_rules, Dir, Label, Rule,
    SimpleTuringMachineSpec, TuringMachineSpec,
};

verus! {

/// A state of the machine that accepts at once.
#[derive(Debug, Clone, Copy, PartialEq, Eq, PartialOrd, Ord, Hash, Structural)]
pub enum AccImmState {
    Init,
}

/// The AccImmState whose index is `n` (the last one for larger `n`).
pub open spec fn acc_imm_state_from_index(n: nat) -> AccImmState {
    AccImmState::Init
}

impl Label for AccImmState {
    open spec fn spec_index(self) -> nat {
        match self {
            AccImmState::Init => 0,
        }
    }

    fn index(&self) -> (r: usize) {
        match self {
            AccImmState::Init => 0,
        }
    }

    proof fn lemma_index_injective(a: Self, b: Self) {
        assert(acc_imm_state_from_index(a.spec_index()) == a);
        assert(acc_imm_state_from_index(b.spec_index()) == b);
    }
}

/// Every value, in index order.
fn all_acc_imm_states() -> (r: Vec<AccImmState>)
    ensures
        r@.len() == 1,
        forall|i: int| 0 <= i < 1 ==> (#[trigger] r@[i]).spec_index() == i,
{
    vec![AccImmState::Init]
}

/// A symbol of the machine that accepts at once.
#[derive(Debug, Clone, Copy, PartialEq, Eq, PartialOrd, Ord, Hash, Structural)]
pub enum AccImmSymbol {
    Blank,
    One,
}

/// The AccImmSymbol whose index is `n` (the last one for larger `n`).
pub open spec fn acc_imm_symbol_from_index(n: nat) -> AccImmSymbol {
    if n == 0 {
        AccImmSymbol::Blank
    } else {
        AccImmSymbol::One
    }
}

impl Label for AccImmSymbol {
    open spec fn spec_index(self) -> nat {
        match self {
            AccImmSymbol::Blank => 0,
            AccImmSymbol::One => 1,
        }
    }

    fn index(&self) -> (r: usize) {
        match self {
            AccImmSymbol::Blank => 0,
            AccImmSymbol::One => 1,
        }
    }

    proof fn lemma_index_injective(a: Self, b: Self) {
        assert(acc_imm_symbol_from_index(a.spec_index()) == a);
        assert(acc_imm_symbol_from_index(b.spec_index()) == b);
    }
}

/// Every value, in index order.
fn all_acc_imm_symbols() -> (r: Vec<AccImmSymbol>)
    ensures
        r@.len() == 2,
        forall|i: int| 0 <= i < 2 ==> (#[trigger] r@[i]).spec_index() == i,
{
    vec![AccImmSymbol::Blank, AccImmSymbol::One]
}

/// A state of the machine that rejects at once.
#[derive(Debug, Clone, Copy, PartialEq, Eq, PartialOrd, Ord, Hash, Structural)]
pub enum RejImmState {
    Init,
}

/// The RejImmState whose index is `n` (the last one for larger `n`).
pub open spec fn rej_imm_state_from_index(n: nat) -> RejImmState {
    RejImmState::Init
}

impl Label for RejImmState {
    open spec fn spec_index(self) -> nat {
        match self {
            RejImmState::Init => 0,
        }
    }

    fn index(&self) -> (r: usize) {
        match self {
            RejImmState::Init => 0,
        }
    }

    proof fn lemma_index_injective(a: Self, b: Self) {
        assert(rej_imm_state_from_index(a.spec_index()) == a);
        assert(rej_imm_state_from_index(b.spec_index()) == b);
    }
}

/// Every value, in index order.
fn all_rej_imm_states() -> (r: Vec<RejImmState>)
    ensures
        r@.len() == 1,
        forall|i: int| 0 <= i < 1 ==> (#[trigger] r@[i]).spec_index() == i,
{
    vec![RejImmState::Init]
}

/// A symbol of the machine that rejects at once.
#[derive(Debug, Clone, Copy, PartialEq, Eq, PartialOrd, Ord, Hash, Structural)]
pub enum RejImmSymbol {
    Blank,
    One,
}

/// The RejImmSymbol whose index is `n` (the last one for larger `n`).
pub open spec fn rej_imm_symbol_from_index(n: nat) -> RejImmSymbol {
    if n == 0 {
        RejImmSymbol::Blank
    } else {
        RejImmSymbol::One
    }
}

impl Label for RejImmSymbol {
    open spec fn spec_index(self) -> nat {
        match self {
            RejImmSymbol::Blank => 0,
            RejImmSymbol::One => 1,
        }
    }

    fn index(&self) -> (r: usize) {
        match self {
            RejImmSymbol::Blank => 0,
            RejImmSymbol::One => 1,
        }
    }

    proof fn lemma_index_injective(a: Self, b: Self) {
        assert(rej_imm_symbol_from_index(a.spec_index()) == a);
        assert(rej_imm_symbol_from_index(b.spec_index()) == b);
    }
}

/// Every value, in index order.
fn all_rej_imm_symbols() -> (r: Vec<RejImmSymbol>)
    ensures
        r@.len() == 2,
        forall|i: int| 0 <= i < 2 ==> (#[trigger] r@[i]).spec_index() == i,
{
    vec![RejImmSymbol::Blank, RejImmSymbol::One]
}

/// A state of the machine that writes 1s forever.
#[derive(Debug, Clone, Copy, PartialEq, Eq, PartialOrd, Ord, Hash, Structural)]
pub enum Write1sState {
    Init,
}

/// The Write1sState whose index is `n` (the last one for larger `n`).
pub open spec fn write1s_state_from_index(n: nat) -> Write1sState {
    Write1sState::Init
}

impl Label for Write1sState {
    open spec fn spec_index(self) -> nat {
        match self {
            Write1sState::Init => 0,
        }
    }

    fn index(&self) -> (r: usize) {
        match self {
            Write1sState::Init => 0,
        }
    }

    proof fn lemma_index_injective(a: Self, b: Self) {
        assert(write1s_state_from_index(a.spec_index()) == a);
        assert(write1s_state_from_index(b.spec_index()) == b);
    }
}

/// Every value, in index order.
fn all_write1s_states() -> (r: Vec<Write1sState>)
    ensures
        r@.len() == 1,
        forall|i: int| 0 <= i < 1 ==> (#[trigger] r@[i]).spec_index() == i,
{
    vec![Write1sState::Init]
}

/// A symbol of the machine that writes 1s forever.
#[derive(Debug, Clone, Copy, PartialEq, Eq, PartialOrd, Ord, Hash, Structural)]
pub enum Write1sSymbol {
    Blank,
    One,
}

/// The Write1sSymbol whose index is `n` (the last one for larger `n`).
pub open spec fn write1s_symbol_from_index(n: nat) -> Write1sSymbol {
    if n == 0 {
        Write1sSymbol::Blank
    } else {
        Write1sSymbol::One
    }
}

impl Label for Write1sSymbol {
    open spec fn spec_index(self) -> nat {
        match self {
            Write1sSymbol::Blank => 0,
            Write1sSymbol::One => 1,
        }
    }

    fn index(&self) -> (r: usize) {
        match self {
            Write1sSymbol::Blank => 0,
            Write1sSymbol::One => 1,
        }
    }

    proof fn lemma_index_injective(a: Self, b: Self) {
        assert(write1s_symbol_from_index(a.spec_index()) == a);
        assert(write1s_symbol_from_index(b.spec_index()) == b);
    }
}

/// Every value, in index order.
fn all_write1s_symbols() -> (r: Vec<Write1sSymbol>)
    ensures
        r@.len() == 2,
        forall|i: int| 0 <= i < 2 ==> (#[trigger] r@[i]).spec_index() == i,
{
    vec![Write1sSymbol::Blank, Write1sSymbol::One]
}

/// A letter of the palindrome checker's alphabet.
#[derive(Debug, Clone, Copy, PartialEq, Eq, PartialOrd, Ord, Hash, Structural)]
pub enum Letter {
    A,
    B,
    C,
    D,
    E,
    F,
    G,
    H,
    I,
    J,
    K,
    L,
    M,
    N,
    O,
    P,
    Q,
    R,
    S,
    T,
    U,
    V,
    W,
    X,
    Y,
    Z,
}

/// The Letter whose index is `n` (the last one for larger `n`).
pub open spec fn letter_from_index(n: nat) -> Letter {
    if n == 0 {
        Letter::A
    } else if n == 1 {
        Letter::B
    } else if n == 2 {
        Letter::C
    } else if n == 3 {
        Letter::D
    } else if n == 4 {
        Letter::E
    } else if n == 5 {
        Letter::F
    } else if n == 6 {
        Letter::G
    } else if n == 7 {
        Letter::H
    } else if n == 8 {
        Letter::I
    } else if n == 9 {
        Letter::J
    } else if n == 10 {
        Letter::K
    } else if n == 11 {
        Letter::L
    } else if n == 12 {
        Letter::M
    } else if n == 13 {
        Letter::N
    } else if n == 14 {
        Letter::O
    } else if n == 15 {
        Letter::P
    } else if n == 16 {
        Letter::Q
    } else if n == 17 {
        Letter::R
    } else if n == 18 {
        Letter::S
    } else if n == 19 {
        Letter::T
    } else if n == 20 {
        Letter::U
    } else if n == 21 {
        Letter::V
    } else if n == 22 {
        Letter::W
    } else if n == 23 {
        Letter::X
    } else if n == 24 {
        Letter::Y
    } else {
        Letter::Z
    }
}

impl Label for Letter {
    open spec fn spec_index(self) -> nat {
        match self {
            Letter::A => 0,
            Letter::B => 1,
            Letter::C => 2,
            Letter::D => 3,
            Letter::E => 4,
            Letter::F => 5,
            Letter::G => 6,
            Letter::H => 7,
            Letter::I => 8,
            Letter::J => 9,
            Letter::K => 10,
            Letter::L => 11,
            Letter::M => 12,
            Letter::N => 13,
            Letter::O => 14,
            Letter::P => 15,
            Letter::Q => 16,
            Letter::R => 17,
            Letter::S => 18,
            Letter::T => 19,
            Letter::U => 20,
            Letter::V => 21,
            Letter::W => 22,
            Letter::X => 23,
            Letter::Y => 24,
            Letter::Z => 25,
        }
    }

    fn index(&self) -> (r: usize) {
        match self {
            Letter::A => 0,
            Letter::B => 1,
            Letter::C => 2,
            Letter::D => 3,
            Letter::E => 4,
            Letter::F => 5,
            Letter::G => 6,
            Letter::H => 7,
            Letter::I => 8,
            Letter::J => 9,
            Letter::K => 10,
            Letter::L => 11,
            Letter::M => 12,
            Letter::N => 13,
            Letter::O => 14,
            Letter::P => 15,
            Letter::Q => 16,
            Letter::R => 17,
            Letter::S => 18,
            Letter::T => 19,
            Letter::U => 20,
            Letter::V => 21,
            Letter::W => 22,
            Letter::X => 23,
            Letter::Y => 24,
            Letter::Z => 25,
        }
    }

    proof fn lemma_index_injective(a: Self, b: Self) {
        assert(letter_from_index(a.spec_index()) == a);
        assert(letter_from_index(b.spec_index()) == b);
    }
}

/// Every value, in index order.
fn all_letters() -> (r: Vec<Letter>)
    ensures
        r@.len() == 26,
        forall|i: int| 0 <= i < 26 ==> (#[trigger] r@[i]).spec_index() == i,
{
    vec![Letter::A, Letter::B, Letter::C, Letter::D, Letter::E, Letter::F, Letter::G, Letter::H, Letter::I, Letter::J, Letter::K, Letter::L, Letter::M, Letter::N, Letter::O, Letter::P, Letter::Q, Letter::R, Letter::S, Letter::T, Letter::U, Letter::V, Letter::W, Letter::X, Letter::Y, Letter::Z]
}

/// A state of the machine that doubles a run of `X`.
#[derive(Debug, Clone, Copy, PartialEq, Eq, PartialOrd, Ord, Hash, Structural)]
pub enum DoubleXState {
    Start,
    FindX,
    GoRight,
    GoBack,
    CleanL,
    CleanR,
    Done,
}

/// The DoubleXState whose index is `n` (the last one for larger `n`).
pub open spec fn double_x_state_from_index(n: nat) -> DoubleXState {
    if n == 0 {
        DoubleXState::Start
    } else if n == 1 {
        DoubleXState::FindX
    } else if n == 2 {
        DoubleXState::GoRight
    } else if n == 3 {
        DoubleXState::GoBack
    } else if n == 4 {
        DoubleXState::CleanL
    } else if n == 5 {
        DoubleXState::CleanR
    } else {
        DoubleXState::Done
    }
}

impl Label for DoubleXState {
    open spec fn spec_index(self) -> nat {
        match self {
            DoubleXState::Start => 0,
            DoubleXState::FindX => 1,
            DoubleXState::GoRight => 2,
            DoubleXState::GoBack => 3,
            DoubleXState::CleanL => 4,
            DoubleXState::CleanR => 5,
            DoubleXState::Done => 6,
        }
    }

    fn index(&self) -> (r: usize) {
        match self {
            DoubleXState::Start => 0,
            DoubleXState::FindX => 1,
            DoubleXState::GoRight => 2,
            DoubleXState::GoBack => 3,
            DoubleXState::CleanL => 4,
            DoubleXState::CleanR => 5,
            DoubleXState::Done => 6,
        }
    }

    proof fn lemma_index_injective(a: Self, b: Self) {
        assert(double_x_state_from_index(a.spec_index()) == a);
        assert(double_x_state_from_index(b.spec_index()) == b);
    }
}

/// Every value, in index order.
fn all_double_x_states() -> (r: Vec<DoubleXState>)
    ensures
        r@.len() == 7,
        forall|i: int| 0 <= i < 7 ==> (#[trigger] r@[i]).spec_index() == i,
{
    vec![DoubleXState::Start, DoubleXState::FindX, DoubleXState::GoRight, DoubleXState::GoBack, DoubleXState::CleanL, DoubleXState::CleanR, DoubleXState::Done]
}

/// A symbol of the machine that doubles a run of `X`.
#[derive(Debug, Clone, Copy, PartialEq, Eq, PartialOrd, Ord, Hash, Structural)]
pub enum DoubleXSymbol {
    Blank,
    Dollar,
    X,
    Y,
    Z,
}

/// The DoubleXSymbol whose index is `n` (the last one for larger `n`).
pub open spec fn double_x_symbol_from_index(n: nat) -> DoubleXSymbol {
    if n == 0 {
        DoubleXSymbol::Blank
    } else if n == 1 {
        DoubleXSymbol::Dollar
    } else if n == 2 {
        DoubleXSymbol::X
    } else if n == 3 {
        DoubleXSymbol::Y
    } else {
        DoubleXSymbol::Z
    }
}

impl Label for DoubleXSymbol {
    open spec fn spec_index(self) -> nat {
        match self {
            DoubleXSymbol::Blank => 0,
            DoubleXSymbol::Dollar => 1,
            DoubleXSymbol::X => 2,
            DoubleXSymbol::Y => 3,
            DoubleXSymbol::Z => 4,
        }
    }

    fn index(&self) -> (r: usize) {
        match self {
            DoubleXSymbol::Blank => 0,
            DoubleXSymbol::Dollar => 1,
            DoubleXSymbol::X => 2,
            DoubleXSymbol::Y => 3,
            DoubleXSymbol::Z => 4,
        }
    }

    proof fn lemma_index_injective(a: Self, b: Self) {
        assert(double_x_symbol_from_index(a.spec_index()) == a);
        assert(double_x_symbol_from_index(b.spec_index()) == b);
    }
}

/// Every value, in index order.
fn all_double_x_symbols() -> (r: Vec<DoubleXSymbol>)
    ensures
        r@.len() == 5,
        forall|i: int| 0 <= i < 5 ==> (#[trigger] r@[i]).spec_index() == i,
{
    vec![DoubleXSymbol::Blank, DoubleXSymbol::Dollar, DoubleXSymbol::X, DoubleXSymbol::Y, DoubleXSymbol::Z]
}

/// A state of the machine that flips bits.
#[derive(Debug, Clone, Copy, PartialEq, Eq, PartialOrd, Ord, Hash, Structural)]
pub enum FlipBitsState {
    Flip,
    Done,
}

/// The FlipBitsState whose index is `n` (the last one for larger `n`).
pub open spec fn flip_bits_state_from_index(n: nat) -> FlipBitsState {
    if n == 0 {
        FlipBitsState::Flip
    } else {
        FlipBitsState::Done
    }
}

impl Label for FlipBitsState {
    open spec fn spec_index(self) -> nat {
        match self {
            FlipBitsState::Flip => 0,
            FlipBitsState::Done => 1,
        }
    }

    fn index(&self) -> (r: usize) {
        match self {
            FlipBitsState::Flip => 0,
            FlipBitsState::Done => 1,
        }
    }

    proof fn lemma_index_injective(a: Self, b: Self) {
        assert(flip_bits_state_from_index(a.spec_index()) == a);
        assert(flip_bits_state_from_index(b.spec_index()) == b);
    }
}

/// Every value, in index order.
fn all_flip_bits_states() -> (r: Vec<FlipBitsState>)
    ensures
        r@.len() == 2,
        forall|i: int| 0 <= i < 2 ==> (#[trigger] r@[i]).spec_index() == i,
{
    vec![FlipBitsState::Flip, FlipBitsState::Done]
}

/// A symbol of the machine that flips bits.
#[derive(Debug, Clone, Copy, PartialEq, Eq, PartialOrd, Ord, Hash, Structural)]
pub enum FlipBitsSymbol {
    Blank,
    Zero,
    One,
}

/// The FlipBitsSymbol whose index is `n` (the last one for larger `n`).
pub open spec fn flip_bits_symbol_from_index(n: nat) -> FlipBitsSymbol {
    if n == 0 {
        FlipBitsSymbol::Blank
    } else if n == 1 {
        FlipBitsSymbol::Zero
    } else {
        FlipBitsSymbol::One
    }
}

impl Label for FlipBitsSymbol {
    open spec fn spec_index(self) -> nat {
        match self {
            FlipBitsSymbol::Blank => 0,
            FlipBitsSymbol::Zero => 1,
            FlipBitsSymbol::One => 2,
        }
    }

    fn index(&self) -> (r: usize) {
        match self {
            FlipBitsSymbol::Blank => 0,
            FlipBitsSymbol::Zero => 1,
            FlipBitsSymbol::One => 2,
        }
    }

    proof fn lemma_index_injective(a: Self, b: Self) {
        assert(flip_bits_symbol_from_index(a.spec_index()) == a);
        assert(flip_bits_symbol_from_index(b.spec_index()) == b);
    }
}

/// Every value, in index order.
fn all_flip_bits_symbols() -> (r: Vec<FlipBitsSymbol>)
    ensures
        r@.len() == 3,
        forall|i: int| 0 <= i < 3 ==> (#[trigger] r@[i]).spec_index() == i,
{
    vec![FlipBitsSymbol::Blank, FlipBitsSymbol::Zero, FlipBitsSymbol::One]
}


/// The rules of a transition function: one rule for each listed state and
/// symbol on which it is defined, states in list order, then symbols.
fn rules_from_fn<S: Label, Y: Label, F: Fn(S, Y) -> Option<(S, Y, Dir)>>(
    states: &Vec<S>,
    symbols: &Vec<Y>,
    f: F,
    Ghost(spec_f): Ghost<spec_fn(S, Y) -> Option<(S, Y, Dir)>>,
) -> (r: Vec<Rule<S, Y>>)
    requires
        states@.no_duplicates(),
        symbols@.no_duplicates(),
        forall|s: S, y: Y| f.requires((s, y)),
        forall|s: S, y: Y, o: Option<(S, Y, Dir)>| f.ensures((s, y), o) ==> o == spec_f(s, y),
    ensures
        forall|s: S, y: Y|
            #[trigger] lookup_rules(r@, s, y) == if states@.contains(s) && symbols@.contains(y) {
                spec_f(s, y)
            } else {
                None
            },
{
    let mut rules: Vec<Rule<S, Y>> = Vec::new();
    let mut i: usize = 0;
    while i < states.len()
        invariant
            i <= states@.len(),
            states@.no_duplicates(),
            symbols@.no_duplicates(),
            forall|s: S, y: Y| f.requires((s, y)),
            forall|s: S, y: Y, o: Option<(S, Y, Dir)>| f.ensures((s, y), o) ==> o == spec_f(s, y),
            forall|s: S, y: Y|
                #[trigger] lookup_rules(rules@, s, y) == if states@.take(i as int).contains(s) && symbols@.contains(y) {
                    spec_f(s, y)
                } else {
                    None
                },
        decreases states.len() - i,
    {
        let s = states[i];
        let mut j: usize = 0;
        while j < symbols.len()
            invariant
                i < states@.len(),
                j <= symbols@.len(),
                s == states@[i as int],
                states@.no_duplicates(),
                symbols@.no_duplicates(),
                forall|s: S, y: Y| f.requires((s, y)),
                forall|s: S, y: Y, o: Option<(S, Y, Dir)>| f.ensures((s, y), o) ==> o == spec_f(s, y),
                forall|s2: S, y: Y|
                    #[trigger] lookup_rules(rules@, s2, y) == if (states@.take(i as int).contains(s2)
                        && symbols@.contains(y)) || (s2 == s && symbols@.take(j as int).contains(y)) {
                        spec_f(s2, y)
                    } else {
                        None
                    },
            decreases symbols.len() - j,
        {
            let y = symbols[j];
            let o = f(s, y);
            let ghost before = rules@;
            proof {
                assert(!states@.take(i as int).contains(s)) by {
                    if states@.take(i as int).contains(s) {
                        let k = choose|k: int| 0 <= k < i && states@.take(i as int)[k] == s;
                        assert(states@[k] == states@[i as int]);
                    }
                }
                assert(!symbols@.take(j as int).contains(y)) by {
                    if symbols@.take(j as int).contains(y) {
                        let k = choose|k: int| 0 <= k < j && symbols@.take(j as int)[k] == y;
                        assert(symbols@[k] == symbols@[j as int]);
                    }
                }
            }
            match o {
                Some((ns, ny, d)) => {
                    rules.push((s, y, ns, ny, d));
                },
                None => {},
            }
            proof {
                assert forall|s2: S, y2: Y| #[trigger] lookup_rules(rules@, s2, y2) == if (states@.take(i as int).contains(s2)
                    && symbols@.contains(y2)) || (s2 == s && symbols@.take(j + 1).contains(y2)) {
                    spec_f(s2, y2)
                } else {
                    None
                } by {
                    let cond_old = (states@.take(i as int).contains(s2) && symbols@.contains(y2)) || (s2 == s
                        && symbols@.take(j as int).contains(y2));
                    assert(lookup_rules(before, s2, y2) == if cond_old { spec_f(s2, y2) } else { None });
                    if s2 == s && y2 == y {
                        assert(symbols@.take(j + 1)[j as int] == y);
                        assert(o == spec_f(s, y));
                        assert(lookup_rules(before, s, y) == None::<(S, Y, Dir)>);
                        if o is Some {
                            assert(rules@.drop_last() =~= before);
                        } else {
                            assert(rules@ == before);
                        }
                    } else {
                        if o is Some {
                            assert(rules@.drop_last() =~= before);
                            assert(lookup_rules(rules@, s2, y2) == lookup_rules(before, s2, y2));
                        } else {
                            assert(rules@ == before);
                        }
                        if s2 == s && symbols@.take(j + 1).contains(y2) {
                            let k = choose|k: int| 0 <= k < j + 1 && #[trigger] symbols@.take(j + 1)[k] == y2;
                            assert(symbols@.take(j as int)[k] == y2);
                        } else if s2 == s && symbols@.take(j as int).contains(y2) {
                            let k = choose|k: int| 0 <= k < j && #[trigger] symbols@.take(j as int)[k] == y2;
                            assert(symbols@.take(j + 1)[k] == y2);
                        }
                    }
                }
            }
            j = j + 1;
        }
        proof {
            assert(symbols@.take(j as int) =~= symbols@);
            assert forall|s2: S, y: Y| #[trigger] lookup_rules(rules@, s2, y) == if states@.take(i + 1).contains(s2)
                && symbols@.contains(y) {
                spec_f(s2, y)
            } else {
                None
            } by {
                if states@.take(i + 1).contains(s2) && s2 != s {
                    let k = choose|k: int| 0 <= k < i + 1 && #[trigger] states@.take(i + 1)[k] == s2;
                    assert(states@.take(i as int)[k] == s2);
                } else if states@.take(i as int).contains(s2) {
                    let k = choose|k: int| 0 <= k < i && states@.take(i as int)[k] == s2;
                    assert(states@.take(i + 1)[k] == s2);
                }
                if s2 == s {
                    assert(states@.take(i + 1)[i as int] == s);
                }
            }
        }
        i = i + 1;
    }
    assert(states@.take(i as int) =~= states@);
    rules
}

/// A machine given by lists of all its states and symbols and by a
/// transition function.
fn machine_from_fn<S: Label, Y: Label, F: Fn(S, Y) -> Option<(S, Y, Dir)>>(
    initial: S,
    accepting: Vec<S>,
    blank: Y,
    states: Vec<S>,
    symbols: Vec<Y>,
    f: F,
    Ghost(spec_f): Ghost<spec_fn(S, Y) -> Option<(S, Y, Dir)>>,
    Ghost(state_bound): Ghost<nat>,
    Ghost(symbol_bound): Ghost<nat>,
) -> (r: SimpleTuringMachineSpec<S, Y>)
    requires
        states@.no_duplicates(),
        symbols@.no_duplicates(),
        states@.contains(initial),
        symbols@.contains(blank),
        forall|i: int| 0 <= i < accepting@.len() ==> states@.contains(#[trigger] accepting@[i]),
        forall|s: S, y: Y|
            states@.contains(s) && symbols@.contains(y) && #[trigger] spec_f(s, y) is Some ==> {
                &&& states@.contains(spec_f(s, y).unwrap().0)
                &&& symbols@.contains(spec_f(s, y).unwrap().1)
            },
        forall|s: S| #[trigger] s.spec_index() < state_bound,
        forall|y: Y| #[trigger] y.spec_index() < symbol_bound,
        state_bound * symbol_bound <= usize::MAX,
        forall|s: S, y: Y| f.requires((s, y)),
        forall|s: S, y: Y, o: Option<(S, Y, Dir)>| f.ensures((s, y), o) ==> o == spec_f(s, y),
    ensures
        r.inv(),
        closed(&r),
        r.spec_initial() == initial,
        r.spec_blank() == blank,
        r.spec_states() == states@,
        r.spec_symbols() == symbols@,
        forall|s: S| #[trigger] r.spec_accepting(s) == accepting@.contains(s),
        forall|s: S, y: Y|
            #[trigger] r.spec_transition(s, y) == if states@.contains(s) && symbols@.contains(y) {
                spec_f(s, y)
            } else {
                None
            },
{
    let rules = rules_from_fn(&states, &symbols, f, Ghost(spec_f));
    proof {
        let sl = SimpleTuringMachineSpec::<S, Y>::state_labels(initial, accepting@, rules@, states@);
        let yl = SimpleTuringMachineSpec::<S, Y>::symbol_labels(blank, rules@, symbols@);
        assert forall|i: int| 0 <= i < sl.len() implies (#[trigger] sl[i]).spec_index() < state_bound by {
            assert(sl[i].spec_index() < state_bound);
        }
        assert forall|i: int| 0 <= i < yl.len() implies (#[trigger] yl[i]).spec_index() < symbol_bound by {
            assert(yl[i].spec_index() < symbol_bound);
        }
        lemma_index_bound_at_most(sl, state_bound);
        lemma_index_bound_at_most(yl, symbol_bound);
        assert(index_bound(sl) * index_bound(yl) <= state_bound * symbol_bound) by (nonlinear_arith)
            requires
                index_bound(sl) <= state_bound,
                index_bound(yl) <= symbol_bound,
        ;
    }
    let r = SimpleTuringMachineSpec::new(initial, accepting, blank, rules, states, symbols);
    proof {
        r.lemma_rules();
        assert forall|i: int| 0 <= i < r.spec_rules().len() implies {
            let q = #[trigger] r.spec_rules()[i];
            &&& r.spec_states().contains(q.0)
            &&& r.spec_symbols().contains(q.1)
            &&& r.spec_states().contains(q.2)
            &&& r.spec_symbols().contains(q.3)
        } by {
            let q = r.spec_rules()[i];
            assert(r.spec_transition(q.0, q.1) == Some((q.2, q.3, q.4)));
            assert(states@.contains(q.0) && symbols@.contains(q.1));
            assert(spec_f(q.0, q.1) == Some((q.2, q.3, q.4)));
        }
    }
    r
}

/// A list whose `i`-th label has index `i`, and that is as long as there
/// are labels, holds every label once.
proof fn lemma_index_order_list<L: Label>(list: Seq<L>, x: L)
    requires
        forall|i: int| 0 <= i < list.len() ==> (#[trigger] list[i]).spec_index() == i,
        x.spec_index() < list.len(),
    ensures
        list.contains(x),
        list.no_duplicates(),
{
    let i = x.spec_index() as int;
    L::lemma_index_injective(list[i], x);
    assert forall|a: int, b: int| 0 <= a < list.len() && 0 <= b < list.len() && a != b implies list[a] != list[b] by {
        assert(list[a].spec_index() == a);
        assert(list[b].spec_index() == b);
    }
}

/// The bit flipper: flips each bit, moving right, and accepts at the first blank.
pub open spec fn flip_bits_transition(s: FlipBitsState, y: FlipBitsSymbol) -> Option<(FlipBitsState, FlipBitsSymbol, Dir)> {
    match (s, y) {
        (FlipBitsState::Flip, FlipBitsSymbol::Zero) => Some((FlipBitsState::Flip, FlipBitsSymbol::One, Dir::Right)),
        (FlipBitsState::Flip, FlipBitsSymbol::One) => Some((FlipBitsState::Flip, FlipBitsSymbol::Zero, Dir::Right)),
        (FlipBitsState::Flip, FlipBitsSymbol::Blank) => Some((FlipBitsState::Done, FlipBitsSymbol::Blank, Dir::Left)),
        _ => None,
    }
}

fn flip_bits_rule(s: FlipBitsState, y: FlipBitsSymbol) -> (r: Option<(FlipBitsState, FlipBitsSymbol, Dir)>)
    ensures
        r == flip_bits_transition(s, y),
{
    match (s, y) {
        (FlipBitsState::Flip, FlipBitsSymbol::Zero) => Some((FlipBitsState::Flip, FlipBitsSymbol::One, Dir::Right)),
        (FlipBitsState::Flip, FlipBitsSymbol::One) => Some((FlipBitsState::Flip, FlipBitsSymbol::Zero, Dir::Right)),
        (FlipBitsState::Flip, FlipBitsSymbol::Blank) => Some((FlipBitsState::Done, FlipBitsSymbol::Blank, Dir::Left)),
        _ => None,
    }
}

/// The machine that flips every bit of its input and accepts.
pub fn flip_bits_spec() -> (r: SimpleTuringMachineSpec<FlipBitsState, FlipBitsSymbol>)
    ensures
        r.inv(),
        closed(&r),
        r.spec_initial() == FlipBitsState::Flip,
        r.spec_blank() == FlipBitsSymbol::Blank,
        forall|s: FlipBitsState| #[trigger] r.spec_accepting(s) == (s == FlipBitsState::Done),
        forall|i: int| 0 <= i < r.spec_states().len() ==> (#[trigger] r.spec_states()[i]).spec_index() == i,
        forall|i: int| 0 <= i < r.spec_symbols().len() ==> (#[trigger] r.spec_symbols()[i]).spec_index() == i,
        forall|s: FlipBitsState, y: FlipBitsSymbol| #[trigger] r.spec_transition(s, y) == flip_bits_transition(s, y),
{
    let states = all_flip_bits_states();
    let symbols = all_flip_bits_symbols();
    proof {
        assert forall|s: FlipBitsState| states@.contains(s) && states@.no_duplicates() by {
            lemma_index_order_list(states@, s);
        }
        assert forall|y: FlipBitsSymbol| symbols@.contains(y) && symbols@.no_duplicates() by {
            lemma_index_order_list(symbols@, y);
        }
        lemma_index_order_list(states@, FlipBitsState::Flip);
        lemma_index_order_list(symbols@, FlipBitsSymbol::Blank);
    }
    let accepting: Vec<FlipBitsState> = vec![FlipBitsState::Done];
    let r = machine_from_fn(FlipBitsState::Flip, accepting, FlipBitsSymbol::Blank, states, symbols, flip_bits_rule, Ghost(|s: FlipBitsState, y: FlipBitsSymbol| flip_bits_transition(s, y)), Ghost(2nat), Ghost(3nat));
    proof {
        assert forall|s: FlipBitsState| #[trigger] r.spec_accepting(s) == (s == FlipBitsState::Done) by {
            assert(accepting@ == seq![FlipBitsState::Done]);
        }
    }
    r
}

/// The doubler: on `$ X...X` it writes as many `X` again after the input.
pub open spec fn double_x_transition(s: DoubleXState, y: DoubleXSymbol) -> Option<(DoubleXState, DoubleXSymbol, Dir)> {
    match (s, y) {
        (DoubleXState::Start, DoubleXSymbol::Dollar) => Some((DoubleXState::FindX, DoubleXSymbol::Dollar, Dir::Right)),
        (DoubleXState::FindX, DoubleXSymbol::X) => Some((DoubleXState::GoRight, DoubleXSymbol::Y, Dir::Right)),
        (DoubleXState::FindX, DoubleXSymbol::Y) => Some((DoubleXState::FindX, DoubleXSymbol::Y, Dir::Right)),
        (DoubleXState::FindX, DoubleXSymbol::Z) => Some((DoubleXState::CleanL, DoubleXSymbol::Z, Dir::Left)),
        (DoubleXState::FindX, DoubleXSymbol::Blank) => Some((DoubleXState::Done, DoubleXSymbol::Blank, Dir::Left)),
        (DoubleXState::GoRight, DoubleXSymbol::X) => Some((DoubleXState::GoRight, DoubleXSymbol::X, Dir::Right)),
        (DoubleXState::GoRight, DoubleXSymbol::Z) => Some((DoubleXState::GoRight, DoubleXSymbol::Z, Dir::Right)),
        (DoubleXState::GoRight, DoubleXSymbol::Blank) => Some((DoubleXState::GoBack, DoubleXSymbol::Z, Dir::Left)),
        (DoubleXState::GoBack, DoubleXSymbol::X) => Some((DoubleXState::GoBack, DoubleXSymbol::X, Dir::Left)),
        (DoubleXState::GoBack, DoubleXSymbol::Y) => Some((DoubleXState::GoBack, DoubleXSymbol::Y, Dir::Left)),
        (DoubleXState::GoBack, DoubleXSymbol::Z) => Some((DoubleXState::GoBack, DoubleXSymbol::Z, Dir::Left)),
        (DoubleXState::GoBack, DoubleXSymbol::Dollar) => Some((DoubleXState::FindX, DoubleXSymbol::Dollar, Dir::Right)),
        (DoubleXState::CleanL, DoubleXSymbol::Y) => Some((DoubleXState::CleanL, DoubleXSymbol::X, Dir::Left)),
        (DoubleXState::CleanL, DoubleXSymbol::Dollar) => Some((DoubleXState::CleanR, DoubleXSymbol::Dollar, Dir::Right)),
        (DoubleXState::CleanR, DoubleXSymbol::X) => Some((DoubleXState::CleanR, DoubleXSymbol::X, Dir::Right)),
        (DoubleXState::CleanR, DoubleXSymbol::Z) => Some((DoubleXState::CleanR, DoubleXSymbol::X, Dir::Right)),
        (DoubleXState::CleanR, DoubleXSymbol::Blank) => Some((DoubleXState::Done, DoubleXSymbol::Blank, Dir::Left)),
        _ => None,
    }
}

fn double_x_rule(s: DoubleXState, y: DoubleXSymbol) -> (r: Option<(DoubleXState, DoubleXSymbol, Dir)>)
    ensures
        r == double_x_transition(s, y),
{
    match (s, y) {
        (DoubleXState::Start, DoubleXSymbol::Dollar) => Some((DoubleXState::FindX, DoubleXSymbol::Dollar, Dir::Right)),
        (DoubleXState::FindX, DoubleXSymbol::X) => Some((DoubleXState::GoRight, DoubleXSymbol::Y, Dir::Right)),
        (DoubleXState::FindX, DoubleXSymbol::Y) => Some((DoubleXState::FindX, DoubleXSymbol::Y, Dir::Right)),
        (DoubleXState::FindX, DoubleXSymbol::Z) => Some((DoubleXState::CleanL, DoubleXSymbol::Z, Dir::Left)),
        (DoubleXState::FindX, DoubleXSymbol::Blank) => Some((DoubleXState::Done, DoubleXSymbol::Blank, Dir::Left)),
        (DoubleXState::GoRight, DoubleXSymbol::X) => Some((DoubleXState::GoRight, DoubleXSymbol::X, Dir::Right)),
        (DoubleXState::GoRight, DoubleXSymbol::Z) => Some((DoubleXState::GoRight, DoubleXSymbol::Z, Dir::Right)),
        (DoubleXState::GoRight, DoubleXSymbol::Blank) => Some((DoubleXState::GoBack, DoubleXSymbol::Z, Dir::Left)),
        (DoubleXState::GoBack, DoubleXSymbol::X) => Some((DoubleXState::GoBack, DoubleXSymbol::X, Dir::Left)),
        (DoubleXState::GoBack, DoubleXSymbol::Y) => Some((DoubleXState::GoBack, DoubleXSymbol::Y, Dir::Left)),
        (DoubleXState::GoBack, DoubleXSymbol::Z) => Some((DoubleXState::GoBack, DoubleXSymbol::Z, Dir::Left)),
        (DoubleXState::GoBack, DoubleXSymbol::Dollar) => Some((DoubleXState::FindX, DoubleXSymbol::Dollar, Dir::Right)),
        (DoubleXState::CleanL, DoubleXSymbol::Y) => Some((DoubleXState::CleanL, DoubleXSymbol::X, Dir::Left)),
        (DoubleXState::CleanL, DoubleXSymbol::Dollar) => Some((DoubleXState::CleanR, DoubleXSymbol::Dollar, Dir::Right)),
        (DoubleXState::CleanR, DoubleXSymbol::X) => Some((DoubleXState::CleanR, DoubleXSymbol::X, Dir::Right)),
        (DoubleXState::CleanR, DoubleXSymbol::Z) => Some((DoubleXState::CleanR, DoubleXSymbol::X, Dir::Right)),
        (DoubleXState::CleanR, DoubleXSymbol::Blank) => Some((DoubleXState::Done, DoubleXSymbol::Blank, Dir::Left)),
        _ => None,
    }
}

/// The machine that doubles a run of `X` after a `$` and accepts.
pub fn double_x_spec() -> (r: SimpleTuringMachineSpec<DoubleXState, DoubleXSymbol>)
    ensures
        r.inv(),
        closed(&r),
        r.spec_initial() == DoubleXState::Start,
        r.spec_blank() == DoubleXSymbol::Blank,
        forall|s: DoubleXState| #[trigger] r.spec_accepting(s) == (s == DoubleXState::Done),
        forall|i: int| 0 <= i < r.spec_states().len() ==> (#[trigger] r.spec_states()[i]).spec_index() == i,
        forall|i: int| 0 <= i < r.spec_symbols().len() ==> (#[trigger] r.spec_symbols()[i]).spec_index() == i,
        forall|s: DoubleXState, y: DoubleXSymbol| #[trigger] r.spec_transition(s, y) == double_x_transition(s, y),
{
    let states = all_double_x_states();
    let symbols = all_double_x_symbols();
    proof {
        assert forall|s: DoubleXState| states@.contains(s) && states@.no_duplicates() by {
            lemma_index_order_list(states@, s);
        }
        assert forall|y: DoubleXSymbol| symbols@.contains(y) && symbols@.no_duplicates() by {
            lemma_index_order_list(symbols@, y);
        }
        lemma_index_order_list(states@, DoubleXState::Start);
        lemma_index_order_list(symbols@, DoubleXSymbol::Blank);
    }
    let accepting: Vec<DoubleXState> = vec![DoubleXState::Done];
    let r = machine_from_fn(DoubleXState::Start, accepting, DoubleXSymbol::Blank, states, symbols, double_x_rule, Ghost(|s: DoubleXState, y: DoubleXSymbol| double_x_transition(s, y)), Ghost(7nat), Ghost(5nat));
    proof {
        assert forall|s: DoubleXState| #[trigger] r.spec_accepting(s) == (s == DoubleXState::Done) by {
            assert(accepting@ == seq![DoubleXState::Done]);
        }
    }
    r
}

/// The writer: writes `1` on every cell, moving right, forever.
pub open spec fn write1s_forever_transition(s: Write1sState, y: Write1sSymbol) -> Option<(Write1sState, Write1sSymbol, Dir)> {
    match (s, y) {
        (Write1sState::Init, Write1sSymbol::Blank) => Some((Write1sState::Init, Write1sSymbol::One, Dir::Right)),
        (Write1sState::Init, Write1sSymbol::One) => Some((Write1sState::Init, Write1sSymbol::One, Dir::Right)),
        _ => None,
    }
}

fn write1s_forever_rule(s: Write1sState, y: Write1sSymbol) -> (r: Option<(Write1sState, Write1sSymbol, Dir)>)
    ensures
        r == write1s_forever_transition(s, y),
{
    match (s, y) {
        (Write1sState::Init, Write1sSymbol::Blank) => Some((Write1sState::Init, Write1sSymbol::One, Dir::Right)),
        (Write1sState::Init, Write1sSymbol::One) => Some((Write1sState::Init, Write1sSymbol::One, Dir::Right)),
        _ => None,
    }
}

/// The machine that writes 1s forever.
pub fn write1s_forever_spec() -> (r: SimpleTuringMachineSpec<Write1sState, Write1sSymbol>)
    ensures
        r.inv(),
        closed(&r),
        r.spec_initial() == Write1sState::Init,
        r.spec_blank() == Write1sSymbol::Blank,
        forall|s: Write1sState| #[trigger] r.spec_accepting(s) == (s == Write1sState::Init),
        forall|i: int| 0 <= i < r.spec_states().len() ==> (#[trigger] r.spec_states()[i]).spec_index() == i,
        forall|i: int| 0 <= i < r.spec_symbols().len() ==> (#[trigger] r.spec_symbols()[i]).spec_index() == i,
        forall|s: Write1sState, y: Write1sSymbol| #[trigger] r.spec_transition(s, y) == write1s_forever_transition(s, y),
{
    let states = all_write1s_states();
    let symbols = all_write1s_symbols();
    proof {
        assert forall|s: Write1sState| states@.contains(s) && states@.no_duplicates() by {
            lemma_index_order_list(states@, s);
        }
        assert forall|y: Write1sSymbol| symbols@.contains(y) && symbols@.no_duplicates() by {
            lemma_index_order_list(symbols@, y);
        }
        lemma_index_order_list(states@, Write1sState::Init);
        lemma_index_order_list(symbols@, Write1sSymbol::Blank);
    }
    let accepting: Vec<Write1sState> = vec![Write1sState::Init];
    let r = machine_from_fn(Write1sState::Init, accepting, Write1sSymbol::Blank, states, symbols, write1s_forever_rule, Ghost(|s: Write1sState, y: Write1sSymbol| write1s_forever_transition(s, y)), Ghost(1nat), Ghost(2nat));
    proof {
        assert forall|s: Write1sState| #[trigger] r.spec_accepting(s) == (s == Write1sState::Init) by {
            assert(accepting@ == seq![Write1sState::Init]);
        }
    }
    r
}

/// No rules: the machine halts at once.
pub open spec fn accept_immediately_transition(s: AccImmState, y: AccImmSymbol) -> Option<(AccImmState, AccImmSymbol, Dir)> {
    None
}

fn accept_immediately_rule(s: AccImmState, y: AccImmSymbol) -> (r: Option<(AccImmState, AccImmSymbol, Dir)>)
    ensures
        r == accept_immediately_transition(s, y),
{
    None
}

/// The machine that halts at once, accepting.
pub fn accept_immediately_spec() -> (r: SimpleTuringMachineSpec<AccImmState, AccImmSymbol>)
    ensures
        r.inv(),
        closed(&r),
        r.spec_initial() == AccImmState::Init,
        r.spec_blank() == AccImmSymbol::Blank,
        forall|s: AccImmState| #[trigger] r.spec_accepting(s) == (s == AccImmState::Init),
        forall|i: int| 0 <= i < r.spec_states().len() ==> (#[trigger] r.spec_states()[i]).spec_index() == i,
        forall|i: int| 0 <= i < r.spec_symbols().len() ==> (#[trigger] r.spec_symbols()[i]).spec_index() == i,
        forall|s: AccImmState, y: AccImmSymbol| #[trigger] r.spec_transition(s, y) == accept_immediately_transition(s, y),
{
    let states = all_acc_imm_states();
    let symbols = all_acc_imm_symbols();
    proof {
        assert forall|s: AccImmState| states@.contains(s) && states@.no_duplicates() by {
            lemma_index_order_list(states@, s);
        }
        assert forall|y: AccImmSymbol| symbols@.contains(y) && symbols@.no_duplicates() by {
            lemma_index_order_list(symbols@, y);
        }
        lemma_index_order_list(states@, AccImmState::Init);
        lemma_index_order_list(symbols@, AccImmSymbol::Blank);
    }
    let accepting: Vec<AccImmState> = vec![AccImmState::Init];
    let r = machine_from_fn(AccImmState::Init, accepting, AccImmSymbol::Blank, states, symbols, accept_immediately_rule, Ghost(|s: AccImmState, y: AccImmSymbol| accept_immediately_transition(s, y)), Ghost(1nat), Ghost(2nat));
    proof {
        assert forall|s: AccImmState| #[trigger] r.spec_accepting(s) == (s == AccImmState::Init) by {
            assert(accepting@ == seq![AccImmState::Init]);
        }
    }
    r
}

/// No rules: the machine halts at once.
pub open spec fn reject_immediately_transition(s: RejImmState, y: RejImmSymbol) -> Option<(RejImmState, RejImmSymbol, Dir)> {
    None
}

fn reject_immediately_rule(s: RejImmState, y: RejImmSymbol) -> (r: Option<(RejImmState, RejImmSymbol, Dir)>)
    ensures
        r == reject_immediately_transition(s, y),
{
    None
}

/// The machine that halts at once, rejecting.
pub fn reject_immediately_spec() -> (r: SimpleTuringMachineSpec<RejImmState, RejImmSymbol>)
    ensures
        r.inv(),
        closed(&r),
        r.spec_initial() == RejImmState::Init,
        r.spec_blank() == RejImmSymbol::Blank,
        forall|s: RejImmState| #[trigger] r.spec_accepting(s) == (false),
        forall|i: int| 0 <= i < r.spec_states().len() ==> (#[trigger] r.spec_states()[i]).spec_index() == i,
        forall|i: int| 0 <= i < r.spec_symbols().len() ==> (#[trigger] r.spec_symbols()[i]).spec_index() == i,
        forall|s: RejImmState, y: RejImmSymbol| #[trigger] r.spec_transition(s, y) == reject_immediately_transition(s, y),
{
    let states = all_rej_imm_states();
    let symbols = all_rej_imm_symbols();
    proof {
        assert forall|s: RejImmState| states@.contains(s) && states@.no_duplicates() by {
            lemma_index_order_list(states@, s);
        }
        assert forall|y: RejImmSymbol| symbols@.contains(y) && symbols@.no_duplicates() by {
            lemma_index_order_list(symbols@, y);
        }
        lemma_index_order_list(states@, RejImmState::Init);
        lemma_index_order_list(symbols@, RejImmSymbol::Blank);
    }
    let accepting: Vec<RejImmState> = Vec::new();
    let r = machine_from_fn(RejImmState::Init, accepting, RejImmSymbol::Blank, states, symbols, reject_immediately_rule, Ghost(|s: RejImmState, y: RejImmSymbol| reject_immediately_transition(s, y)), Ghost(1nat), Ghost(2nat));
    proof {
        assert forall|s: RejImmState| #[trigger] r.spec_accepting(s) == (false) by {
            assert(accepting@ == Seq::<RejImmState>::empty());
        }
    }
    r
}


/// A state of the palindrome checker.
#[derive(Debug, Clone, Copy, PartialEq, Eq, PartialOrd, Ord, Hash, Structural)]
pub enum CheckPalindromeState {
    Start,
    Accept,
    SeekL,
    SeekR(Letter),
    Check(Letter),
}

/// A symbol of the palindrome checker.
#[derive(Debug, Clone, Copy, PartialEq, Eq, PartialOrd, Ord, Hash, Structural)]
pub enum CheckPalindromeSymbol {
    Blank,
    Letter(Letter),
}

proof fn lemma_letter_index(l: Letter)
    ensures
        l.spec_index() < 26,
        letter_from_index(l.spec_index()) == l,
{
}

impl Label for CheckPalindromeState {
    open spec fn spec_index(self) -> nat {
        match self {
            CheckPalindromeState::Start => 0,
            CheckPalindromeState::Accept => 1,
            CheckPalindromeState::SeekL => 2,
            CheckPalindromeState::SeekR(l) => 3 + l.spec_index(),
            CheckPalindromeState::Check(l) => 29 + l.spec_index(),
        }
    }

    fn index(&self) -> (r: usize) {
        match self {
            CheckPalindromeState::Start => 0,
            CheckPalindromeState::Accept => 1,
            CheckPalindromeState::SeekL => 2,
            CheckPalindromeState::SeekR(l) => {
                proof {
                    lemma_letter_index(*l);
                }
                3 + l.index()
            },
            CheckPalindromeState::Check(l) => {
                proof {
                    lemma_letter_index(*l);
                }
                29 + l.index()
            },
        }
    }

    proof fn lemma_index_injective(a: Self, b: Self) {
        match a {
            CheckPalindromeState::SeekR(x) => lemma_letter_index(x),
            CheckPalindromeState::Check(x) => lemma_letter_index(x),
            _ => {},
        }
        match b {
            CheckPalindromeState::SeekR(y) => lemma_letter_index(y),
            CheckPalindromeState::Check(y) => lemma_letter_index(y),
            _ => {},
        }
    }
}

impl Label for CheckPalindromeSymbol {
    open spec fn spec_index(self) -> nat {
        match self {
            CheckPalindromeSymbol::Blank => 0,
            CheckPalindromeSymbol::Letter(l) => 1 + l.spec_index(),
        }
    }

    fn index(&self) -> (r: usize) {
        match self {
            CheckPalindromeSymbol::Blank => 0,
            CheckPalindromeSymbol::Letter(l) => {
                proof {
                    lemma_letter_index(*l);
                }
                1 + l.index()
            },
        }
    }

    proof fn lemma_index_injective(a: Self, b: Self) {
        match a {
            CheckPalindromeSymbol::Letter(x) => lemma_letter_index(x),
            _ => {},
        }
        match b {
            CheckPalindromeSymbol::Letter(y) => lemma_letter_index(y),
            _ => {},
        }
    }
}

/// The palindrome checker: erase the first letter, carry it to the end,
/// compare it with the last letter and erase that, then go back; accept
/// when nothing is left.
pub open spec fn check_palindrome_transition(s: CheckPalindromeState, y: CheckPalindromeSymbol) -> Option<
    (CheckPalindromeState, CheckPalindromeSymbol, Dir),
> {
    match (s, y) {
        (CheckPalindromeState::Start, CheckPalindromeSymbol::Blank) => Some(
            (CheckPalindromeState::Accept, CheckPalindromeSymbol::Blank, Dir::Right),
        ),
        (CheckPalindromeState::Start, CheckPalindromeSymbol::Letter(l)) => Some(
            (CheckPalindromeState::SeekR(l), CheckPalindromeSymbol::Blank, Dir::Right),
        ),
        (CheckPalindromeState::SeekR(l), CheckPalindromeSymbol::Blank) => Some(
            (CheckPalindromeState::Check(l), CheckPalindromeSymbol::Blank, Dir::Left),
        ),
        (CheckPalindromeState::SeekR(l), CheckPalindromeSymbol::Letter(l2)) => Some(
            (CheckPalindromeState::SeekR(l), CheckPalindromeSymbol::Letter(l2), Dir::Right),
        ),
        (CheckPalindromeState::Check(l), CheckPalindromeSymbol::Blank) => Some(
            (CheckPalindromeState::Accept, CheckPalindromeSymbol::Blank, Dir::Right),
        ),
        (CheckPalindromeState::Check(l), CheckPalindromeSymbol::Letter(l2)) => if l2 == l {
            Some((CheckPalindromeState::SeekL, CheckPalindromeSymbol::Blank, Dir::Left))
        } else {
            None
        },
        (CheckPalindromeState::SeekL, CheckPalindromeSymbol::Blank) => Some(
            (CheckPalindromeState::Start, CheckPalindromeSymbol::Blank, Dir::Right),
        ),
        (CheckPalindromeState::SeekL, CheckPalindromeSymbol::Letter(l)) => Some(
            (CheckPalindromeState::SeekL, CheckPalindromeSymbol::Letter(l), Dir::Left),
        ),
        (CheckPalindromeState::Accept, _) => None,
    }
}

fn check_palindrome_rule(s: CheckPalindromeState, y: CheckPalindromeSymbol) -> (r: Option<
    (CheckPalindromeState, CheckPalindromeSymbol, Dir),
>)
    ensures
        r == check_palindrome_transition(s, y),
{
    match (s, y) {
        (CheckPalindromeState::Start, CheckPalindromeSymbol::Blank) => Some(
            (CheckPalindromeState::Accept, CheckPalindromeSymbol::Blank, Dir::Right),
        ),
        (CheckPalindromeState::Start, CheckPalindromeSymbol::Letter(l)) => Some(
            (CheckPalindromeState::SeekR(l), CheckPalindromeSymbol::Blank, Dir::Right),
        ),
        (CheckPalindromeState::SeekR(l), CheckPalindromeSymbol::Blank) => Some(
            (CheckPalindromeState::Check(l), CheckPalindromeSymbol::Blank, Dir::Left),
        ),
        (CheckPalindromeState::SeekR(l), CheckPalindromeSymbol::Letter(l2)) => Some(
            (CheckPalindromeState::SeekR(l), CheckPalindromeSymbol::Letter(l2), Dir::Right),
        ),
        (CheckPalindromeState::Check(l), CheckPalindromeSymbol::Blank) => Some(
            (CheckPalindromeState::Accept, CheckPalindromeSymbol::Blank, Dir::Right),
        ),
        (CheckPalindromeState::Check(l), CheckPalindromeSymbol::Letter(l2)) => if l2 == l {
            Some((CheckPalindromeState::SeekL, CheckPalindromeSymbol::Blank, Dir::Left))
        } else {
            None
        },
        (CheckPalindromeState::SeekL, CheckPalindromeSymbol::Blank) => Some(
            (CheckPalindromeState::Start, CheckPalindromeSymbol::Blank, Dir::Right),
        ),
        (CheckPalindromeState::SeekL, CheckPalindromeSymbol::Letter(l)) => Some(
            (CheckPalindromeState::SeekL, CheckPalindromeSymbol::Letter(l), Dir::Left),
        ),
        (CheckPalindromeState::Accept, _) => None,
    }
}

/// A state of the palindrome checker over the given letters.
pub open spec fn palindrome_state_over(s: CheckPalindromeState, letters: Seq<Letter>) -> bool {
    match s {
        CheckPalindromeState::SeekR(l) => letters.contains(l),
        CheckPalindromeState::Check(l) => letters.contains(l),
        _ => true,
    }
}

/// A symbol of the palindrome checker over the given letters.
pub open spec fn palindrome_symbol_over(y: CheckPalindromeSymbol, letters: Seq<Letter>) -> bool {
    match y {
        CheckPalindromeSymbol::Letter(l) => letters.contains(l),
        CheckPalindromeSymbol::Blank => true,
    }
}

/// The `a`-th state of the palindrome checker's state list: `Start`,
/// `Accept`, `SeekL`, then `SeekR` and `Check` of each letter in turn.
pub open spec fn palindrome_state_at(a: int, letters: Seq<Letter>) -> CheckPalindromeState {
    if a == 0 {
        CheckPalindromeState::Start
    } else if a == 1 {
        CheckPalindromeState::Accept
    } else if a == 2 {
        CheckPalindromeState::SeekL
    } else if (a - 3) % 2 == 0 {
        CheckPalindromeState::SeekR(letters[(a - 3) / 2])
    } else {
        CheckPalindromeState::Check(letters[(a - 3) / 2])
    }
}

/// The machine that accepts exactly the palindromes over the given
/// letters; it has no rules for other letters.
pub fn palindrome_spec(letters: &Vec<Letter>) -> (r: SimpleTuringMachineSpec<CheckPalindromeState, CheckPalindromeSymbol>)
    requires
        letters@.no_duplicates(),
    ensures
        r.inv(),
        closed(&r),
        r.spec_initial() == CheckPalindromeState::Start,
        r.spec_blank() == CheckPalindromeSymbol::Blank,
        forall|s: CheckPalindromeState| #[trigger] r.spec_accepting(s) == (s == CheckPalindromeState::Accept),
        r.spec_states().len() == 3 + 2 * letters@.len(),
        forall|a: int| 0 <= a < r.spec_states().len() ==> #[trigger] r.spec_states()[a] == palindrome_state_at(a, letters@),
        r.spec_symbols() == seq![CheckPalindromeSymbol::Blank] + letters@.map_values(|l: Letter| CheckPalindromeSymbol::Letter(l)),
        forall|s: CheckPalindromeState, y: CheckPalindromeSymbol| #[trigger] r.spec_transition(s, y) == if palindrome_state_over(s, letters@)
            && palindrome_symbol_over(y, letters@) {
            check_palindrome_transition(s, y)
        } else {
            None
        },
{
    let ghost ls = letters@;
    let mut states = vec![CheckPalindromeState::Start, CheckPalindromeState::Accept, CheckPalindromeState::SeekL];
    let mut symbols = vec![CheckPalindromeSymbol::Blank];
    let mut k: usize = 0;
    while k < letters.len()
        invariant
            k <= ls.len(),
            ls == letters@,
            states@.len() == 3 + 2 * k,
            forall|a: int| 0 <= a < states@.len() ==> #[trigger] states@[a] == palindrome_state_at(a, ls),
            symbols@ == seq![CheckPalindromeSymbol::Blank] + ls.take(k as int).map_values(|l: Letter| CheckPalindromeSymbol::Letter(l)),
        decreases ls.len() - k,
    {
        let l = letters[k];
        states.push(CheckPalindromeState::SeekR(l));
        states.push(CheckPalindromeState::Check(l));
        symbols.push(CheckPalindromeSymbol::Letter(l));
        proof {
            let a0 = 3 + 2 * k;
            assert((a0 - 3) % 2 == 0 && (a0 - 3) / 2 == k);
            assert((a0 + 1 - 3) % 2 == 1 && (a0 + 1 - 3) / 2 == k);
            assert(states@[a0] == palindrome_state_at(a0, ls));
            assert(states@[a0 + 1] == palindrome_state_at(a0 + 1, ls));
            assert(ls.take(k + 1).map_values(|l: Letter| CheckPalindromeSymbol::Letter(l)) =~= ls.take(k as int).map_values(
                |l: Letter| CheckPalindromeSymbol::Letter(l),
            ).push(CheckPalindromeSymbol::Letter(l)));
        }
        k = k + 1;
    }
    proof {
        assert(ls.take(k as int) =~= ls);
        let ys = symbols@;
        assert forall|s: CheckPalindromeState| #[trigger] states@.contains(s) == palindrome_state_over(s, ls) by {
            match s {
                CheckPalindromeState::Start => assert(states@[0] == s),
                CheckPalindromeState::Accept => assert(states@[1] == s),
                CheckPalindromeState::SeekL => assert(states@[2] == s),
                CheckPalindromeState::SeekR(l) => {
                    if ls.contains(l) {
                        let j = choose|j: int| 0 <= j < ls.len() && ls[j] == l;
                        let a = 3 + 2 * j;
                        assert((a - 3) % 2 == 0 && (a - 3) / 2 == j);
                        assert(states@[a] == s);
                    }
                    if states@.contains(s) {
                        let a = choose|a: int| 0 <= a < states@.len() && states@[a] == s;
                        assert(states@[a] == palindrome_state_at(a, ls));
                        assert(0 <= (a - 3) / 2 < ls.len());
                    }
                },
                CheckPalindromeState::Check(l) => {
                    if ls.contains(l) {
                        let j = choose|j: int| 0 <= j < ls.len() && ls[j] == l;
                        let a = 4 + 2 * j;
                        assert((a - 3) % 2 == 1 && (a - 3) / 2 == j);
                        assert(states@[a] == s);
                    }
                    if states@.contains(s) {
                        let a = choose|a: int| 0 <= a < states@.len() && states@[a] == s;
                        assert(states@[a] == palindrome_state_at(a, ls));
                        assert(0 <= (a - 3) / 2 < ls.len());
                    }
                },
            }
        }
        assert forall|a: int, b: int| 0 <= a < states@.len() && 0 <= b < states@.len() && a != b implies states@[a]
            != states@[b] by {
            assert(states@[a] == palindrome_state_at(a, ls));
            assert(states@[b] == palindrome_state_at(b, ls));
        }
        assert forall|y: CheckPalindromeSymbol| #[trigger] ys.contains(y) == palindrome_symbol_over(y, ls) by {
            match y {
                CheckPalindromeSymbol::Blank => assert(ys[0] == y),
                CheckPalindromeSymbol::Letter(l) => {
                    if ls.contains(l) {
                        let j = choose|j: int| 0 <= j < ls.len() && ls[j] == l;
                        assert(ys[j + 1] == y);
                    }
                    if ys.contains(y) {
                        let a = choose|a: int| 0 <= a < ys.len() && ys[a] == y;
                        assert(a >= 1);
                        assert(ys[a] == CheckPalindromeSymbol::Letter(ls[a - 1]));
                    }
                },
            }
        }
        assert forall|a: int, b: int| 0 <= a < ys.len() && 0 <= b < ys.len() && a != b implies ys[a] != ys[b] by {
            if a > 0 && b > 0 {
                assert(ys[a] == CheckPalindromeSymbol::Letter(ls[a - 1]));
                assert(ys[b] == CheckPalindromeSymbol::Letter(ls[b - 1]));
            }
        }
        assert(states@.contains(CheckPalindromeState::Start));
        assert(ys.contains(CheckPalindromeSymbol::Blank));
        assert(states@.contains(CheckPalindromeState::Accept));
        assert forall|s: CheckPalindromeState| #[trigger] s.spec_index() < 55 by {
            match s {
                CheckPalindromeState::SeekR(l) => lemma_letter_index(l),
                CheckPalindromeState::Check(l) => lemma_letter_index(l),
                _ => {},
            }
        }
        assert forall|y: CheckPalindromeSymbol| #[trigger] y.spec_index() < 27 by {
            match y {
                CheckPalindromeSymbol::Letter(l) => lemma_letter_index(l),
                _ => {},
            }
        }
        assert forall|s: CheckPalindromeState, y: CheckPalindromeSymbol|
            states@.contains(s) && ys.contains(y) && #[trigger] check_palindrome_transition(s, y) is Some implies {
            &&& states@.contains(check_palindrome_transition(s, y).unwrap().0)
            &&& ys.contains(check_palindrome_transition(s, y).unwrap().1)
        } by {
            let t = check_palindrome_transition(s, y).unwrap();
            assert(states@.contains(t.0) == palindrome_state_over(t.0, ls));
            assert(ys.contains(t.1) == palindrome_symbol_over(t.1, ls));
            assert(states@.contains(s) == palindrome_state_over(s, ls));
            assert(ys.contains(y) == palindrome_symbol_over(y, ls));
        }
    }
    let accepting = vec![CheckPalindromeState::Accept];
    let r = machine_from_fn(
        CheckPalindromeState::Start,
        accepting,
        CheckPalindromeSymbol::Blank,
        states,
        symbols,
        check_palindrome_rule,
        Ghost(|s: CheckPalindromeState, y: CheckPalindromeSymbol| check_palindrome_transition(s, y)),
        Ghost(55nat),
        Ghost(27nat),
    );
    proof {
        assert(accepting@ == seq![CheckPalindromeState::Accept]);
        assert forall|s: CheckPalindromeState, y: CheckPalindromeSymbol| #[trigger] r.spec_transition(s, y) == if palindrome_state_over(s, ls)
            && palindrome_symbol_over(y, ls) {
            check_palindrome_transition(s, y)
        } else {
            None
        } by {
            assert(r.spec_states().contains(s) == palindrome_state_over(s, ls));
            assert(r.spec_symbols().contains(y) == palindrome_symbol_over(y, ls));
        }
    }
    r
}

/// The machine that accepts exactly the palindromes over all letters.
pub fn check_palindrome_spec() -> (r: SimpleTuringMachineSpec<CheckPalindromeState, CheckPalindromeSymbol>)
    ensures
        r.inv(),
        closed(&r),
        r.spec_initial() == CheckPalindromeState::Start,
        r.spec_blank() == CheckPalindromeSymbol::Blank,
        forall|s: CheckPalindromeState| #[trigger] r.spec_accepting(s) == (s == CheckPalindromeState::Accept),
        r.spec_states().len() == 55,
        forall|i: int| 0 <= i < r.spec_symbols().len() ==> (#[trigger] r.spec_symbols()[i]).spec_index() == i,
        forall|s: CheckPalindromeState, y: CheckPalindromeSymbol| #[trigger] r.spec_transition(s, y)
            == check_palindrome_transition(s, y),
{
    let letters = all_letters();
    proof {
        assert forall|l: Letter| letters@.contains(l) && letters@.no_duplicates() by {
            lemma_index_order_list(letters@, l);
        }
    }
    let r = palindrome_spec(&letters);
    proof {
        assert forall|s: CheckPalindromeState, y: CheckPalindromeSymbol| #[trigger] r.spec_transition(s, y)
            == check_palindrome_transition(s, y) by {
            assert(palindrome_state_over(s, letters@));
            assert(palindrome_symbol_over(y, letters@));
        }
        assert forall|i: int| 0 <= i < r.spec_symbols().len() implies (#[trigger] r.spec_symbols()[i]).spec_index() == i by {
            if i > 0 {
                assert(r.spec_symbols()[i] == CheckPalindromeSymbol::Letter(letters@[i - 1]));
            }
        }
    }
    r
}

} // verus!
