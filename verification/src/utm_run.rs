//! What the universal machine does on an encoded tape, phase by phase:
//! the walk to the end of the rules; the search of the rules from the
//! right, with both the matching and the failing comparison of a rule's
//! state, up to the last rule for the current state; the cleanup after a
//! matching state; and the matching comparison of a single rule's symbol
//! with the head's cell.  The failing symbol comparison, noop groups'
//! alternatives, the copying of the new state and symbol, the head move,
//! the restart and the halting phases are not covered here.
use vstd::prelude::*;

use crate::binary::{binary, bit_symbol, lemma_binary_value, two_pow};
use crate::compiled::position;
use crate::encoding::{
    accepting_codes, alternatives, code_symbols, dir_symbol, encode_spec, header_spec, join_codes, serialize_rules_view,
    serialize_view, tape_section_spec, RuleView,
};
use crate::binary::spec_num_bits;
use crate::tm::{lookup_rules, step_config, Dir, TmConfig, TuringMachineSpec};
use crate::utm::{utm_rule_list, MyUtmSpec};
use crate::utm_lookup::{lemma_utm_lookup, listed, utm_delta};
use crate::utm_symbols::{State, Symbol};

verus! {

/// A description whose transitions are those of the universal machine's
/// rule list, as `make_utm_spec` gives it.
pub open spec fn is_utm(u: &MyUtmSpec) -> bool {
    forall|s: State, y: Symbol| #[trigger] u.spec_transition(s, y) == lookup_rules(utm_rule_list(), s, y)
}

/// `n` steps of a machine whose head stays on the tape; `None` where it
/// halts first.
pub open spec fn steps<Spec: TuringMachineSpec>(
    spec: &Spec,
    c: TmConfig<Spec::State, Spec::Symbol>,
    n: nat,
) -> Option<TmConfig<Spec::State, Spec::Symbol>>
    decreases n,
{
    if n == 0 {
        Some(c)
    } else {
        match step_config(spec, c) {
            Some(c2) => steps(spec, c2, (n - 1) as nat),
            None => None,
        }
    }
}

/// Steps compose: `a` steps and then `b` steps are `a + b` steps.
pub proof fn lemma_steps_add<Spec: TuringMachineSpec>(
    spec: &Spec,
    c: TmConfig<Spec::State, Spec::Symbol>,
    a: nat,
    b: nat,
)
    requires
        steps(spec, c, a) is Some,
    ensures
        steps(spec, c, a + b) == steps(spec, steps(spec, c, a)->0, b),
    decreases a,
{
    if a > 0 {
        let c2 = step_config(spec, c)->0;
        lemma_steps_add(spec, c2, (a - 1) as nat, b);
        assert((a + b - 1) as nat == (a - 1) as nat + b);
    }
}

/// A bit.
pub open spec fn is_bit(y: Symbol) -> bool {
    y == Symbol::Zero || y == Symbol::One
}

/// A symbol of the accepting section: a bit or `;`.
pub open spec fn is_acc_text(y: Symbol) -> bool {
    is_bit(y) || y == Symbol::Semi
}

/// A symbol of the rules section: a bit, `.`, `|`, `,`, `;`, `L` or `R`.
pub open spec fn is_rule_text(y: Symbol) -> bool {
    is_bit(y) || y == Symbol::Dot || y == Symbol::Pipe || y == Symbol::Comma || y == Symbol::Semi
        || y == Symbol::L || y == Symbol::R
}

/// Every symbol of `t` from `from` up to `to` is a bit.
pub open spec fn bits_between(t: Seq<Symbol>, from: int, to: int) -> bool {
    forall|k: int| from <= k < to ==> is_bit(#[trigger] t[k])
}

/// Every symbol of `t` from `from` up to `to` is accepting-section text.
pub open spec fn acc_text_between(t: Seq<Symbol>, from: int, to: int) -> bool {
    forall|k: int| from <= k < to ==> is_acc_text(#[trigger] t[k])
}

/// Every symbol of `t` from `from` up to `to` is rules-section text.
pub open spec fn rule_text_between(t: Seq<Symbol>, from: int, to: int) -> bool {
    forall|k: int| from <= k < to ==> is_rule_text(#[trigger] t[k])
}

proof fn lemma_code_bits(c: nat, w: nat)
    ensures
        bits_between(code_symbols(c, w), 0, code_symbols(c, w).len() as int),
{
    let s = code_symbols(c, w);
    assert forall|k: int| 0 <= k < s.len() implies is_bit(#[trigger] s[k]) by {
        assert(s[k] == bit_symbol(binary(c, w)[k]));
    }
}

proof fn lemma_join_codes_text(codes: Seq<nat>, w: nat)
    ensures
        acc_text_between(join_codes(codes, w, Symbol::Semi), 0, join_codes(codes, w, Symbol::Semi).len() as int),
    decreases codes.len(),
{
    let j = join_codes(codes, w, Symbol::Semi);
    if codes.len() == 1 {
        lemma_code_bits(codes[0], w);
    } else if codes.len() > 1 {
        let a = join_codes(codes.drop_last(), w, Symbol::Semi);
        let b = code_symbols(codes.last(), w);
        lemma_join_codes_text(codes.drop_last(), w);
        lemma_code_bits(codes.last(), w);
        assert forall|k: int| 0 <= k < j.len() implies is_acc_text(#[trigger] j[k]) by {
            if k < a.len() {
                assert(j[k] == a[k]);
            } else if k == a.len() {
                assert(j[k] == Symbol::Semi);
            } else {
                assert(j[k] == b[k - a.len() - 1]);
            }
        }
    }
}

proof fn lemma_rule_text_concat(a: Seq<Symbol>, b: Seq<Symbol>)
    requires
        rule_text_between(a, 0, a.len() as int),
        rule_text_between(b, 0, b.len() as int),
    ensures
        rule_text_between(a + b, 0, (a + b).len() as int),
{
    assert forall|k: int| 0 <= k < (a + b).len() implies is_rule_text(#[trigger] (a + b)[k]) by {
        if k < a.len() {
            assert((a + b)[k] == a[k]);
        } else {
            assert((a + b)[k] == b[k - a.len()]);
        }
    }
}

proof fn lemma_code_rule_text(c: nat, w: nat)
    ensures
        rule_text_between(code_symbols(c, w), 0, code_symbols(c, w).len() as int),
{
    lemma_code_bits(c, w);
}

proof fn lemma_alternatives_text(syms: Seq<nat>, w: nat)
    ensures
        rule_text_between(alternatives(syms, w), 0, alternatives(syms, w).len() as int),
    decreases syms.len(),
{
    if syms.len() > 0 {
        let a = alternatives(syms.drop_last(), w);
        lemma_alternatives_text(syms.drop_last(), w);
        lemma_code_rule_text(syms.last(), w);
        lemma_rule_text_concat(a, seq![Symbol::Comma]);
        lemma_rule_text_concat(a + seq![Symbol::Comma], code_symbols(syms.last(), w));
    }
}

proof fn lemma_serialize_view_text(r: RuleView, sb: nat, yb: nat)
    ensures
        rule_text_between(serialize_view(r, sb, yb), 0, serialize_view(r, sb, yb).len() as int),
{
    let d = seq![Symbol::Dot];
    let p = seq![Symbol::Pipe];
    match r {
        RuleView::Single { state, sym, new_state, new_sym, dir } => {
            let t = seq![Symbol::Pipe, dir_symbol(dir)];
            lemma_code_rule_text(state, sb);
            lemma_code_rule_text(sym, yb);
            lemma_code_rule_text(new_state, sb);
            lemma_code_rule_text(new_sym, yb);
            let a1 = d + code_symbols(state, sb);
            lemma_rule_text_concat(d, code_symbols(state, sb));
            lemma_rule_text_concat(a1, p);
            let a2 = a1 + p + code_symbols(sym, yb);
            lemma_rule_text_concat(a1 + p, code_symbols(sym, yb));
            lemma_rule_text_concat(a2, p);
            let a3 = a2 + p + code_symbols(new_state, sb);
            lemma_rule_text_concat(a2 + p, code_symbols(new_state, sb));
            lemma_rule_text_concat(a3, p);
            let a4 = a3 + p + code_symbols(new_sym, yb);
            lemma_rule_text_concat(a3 + p, code_symbols(new_sym, yb));
            lemma_rule_text_concat(a4, t);
        },
        RuleView::NoopGroup { state, syms, dir } => {
            let t = seq![Symbol::Pipe, dir_symbol(dir)];
            lemma_code_rule_text(state, sb);
            lemma_alternatives_text(syms, yb);
            let a1 = d + code_symbols(state, sb);
            lemma_rule_text_concat(d, code_symbols(state, sb));
            lemma_rule_text_concat(a1, alternatives(syms, yb));
            lemma_rule_text_concat(a1 + alternatives(syms, yb), t);
        },
    }
}

proof fn lemma_rules_text(rules: Seq<RuleView>, sb: nat, yb: nat)
    ensures
        rule_text_between(serialize_rules_view(rules, sb, yb), 0, serialize_rules_view(rules, sb, yb).len() as int),
    decreases rules.len(),
{
    if rules.len() == 1 {
        lemma_serialize_view_text(rules[0], sb, yb);
    } else if rules.len() > 1 {
        let a = serialize_rules_view(rules.drop_last(), sb, yb);
        lemma_rules_text(rules.drop_last(), sb, yb);
        lemma_serialize_view_text(rules.last(), sb, yb);
        lemma_rule_text_concat(a, seq![Symbol::Semi]);
        lemma_rule_text_concat(a + seq![Symbol::Semi], serialize_view(rules.last(), sb, yb));
    }
}

/// A machine that keeps its state and the symbol and moves right over
/// every symbol of a stretch of tape crosses the whole stretch.
pub proof fn lemma_scan_right<Spec: TuringMachineSpec>(
    spec: &Spec,
    c: TmConfig<Spec::State, Spec::Symbol>,
    to: nat,
)
    requires
        c.pos <= to <= c.tape.len(),
        forall|k: int|
            c.pos <= k < to ==> #[trigger] spec.spec_transition(c.state, c.tape[k]) == Some(
                (c.state, c.tape[k], Dir::Right),
            ),
    ensures
        steps(spec, c, (to - c.pos) as nat) == Some(TmConfig { state: c.state, pos: to, tape: c.tape }),
    decreases to - c.pos,
{
    if c.pos < to {
        let c2 = TmConfig { state: c.state, pos: c.pos + 1, tape: c.tape };
        assert(c.tape.update(c.pos as int, c.tape[c.pos as int]) =~= c.tape);
        assert(step_config(spec, c) == Some(c2));
        lemma_scan_right(spec, c2, to);
    } else {
        assert(c == TmConfig { state: c.state, pos: to, tape: c.tape });
    }
}

/// The rules of the first phase, from `$` to the end of the rules section.
pub proof fn lemma_init_phase_rules(u: &MyUtmSpec)
    requires
        is_utm(u),
    ensures
        u.spec_transition(State::Init, Symbol::Dollar) == Some((State::Init, Symbol::Dollar, Dir::Right)),
        forall|y: Symbol| is_acc_text(y) ==> #[trigger] u.spec_transition(State::Init, y) == Some((State::Init, y, Dir::Right)),
        u.spec_transition(State::Init, Symbol::Hash) == Some((State::InitSkip, Symbol::Hash, Dir::Right)),
        forall|y: Symbol| is_bit(y) ==> #[trigger] u.spec_transition(State::InitSkip, y) == Some((State::InitSkip, y, Dir::Right)),
        u.spec_transition(State::InitSkip, Symbol::Hash) == Some((State::InitSeekEnd, Symbol::Hash, Dir::Right)),
        forall|y: Symbol|
            is_rule_text(y) ==> #[trigger] u.spec_transition(State::InitSeekEnd, y) == Some(
                (State::InitSeekEnd, y, Dir::Right),
            ),
        u.spec_transition(State::InitSeekEnd, Symbol::Hash) == Some((State::MarkRule, Symbol::Hash, Dir::Left)),
{
    reveal_with_fuel(listed, 16);
    lemma_utm_lookup(State::Init, Symbol::Dollar);
    lemma_utm_lookup(State::Init, Symbol::Hash);
    lemma_utm_lookup(State::InitSkip, Symbol::Hash);
    lemma_utm_lookup(State::InitSeekEnd, Symbol::Hash);
    assert forall|y: Symbol| is_acc_text(y) implies #[trigger] u.spec_transition(State::Init, y) == Some(
        (State::Init, y, Dir::Right),
    ) by {
        lemma_utm_lookup(State::Init, y);
    }
    assert forall|y: Symbol| is_bit(y) implies #[trigger] u.spec_transition(State::InitSkip, y) == Some(
        (State::InitSkip, y, Dir::Right),
    ) by {
        lemma_utm_lookup(State::InitSkip, y);
    }
    assert forall|y: Symbol| is_rule_text(y) implies #[trigger] u.spec_transition(State::InitSeekEnd, y) == Some(
        (State::InitSeekEnd, y, Dir::Right),
    ) by {
        lemma_utm_lookup(State::InitSeekEnd, y);
    }
}

/// Where the rules section of an encoding ends: the position of the `#`
/// after it.
pub open spec fn rules_end<Spec: TuringMachineSpec>(g: &Spec, rules: Seq<RuleView>) -> nat {
    let ss = g.spec_states();
    let ys = g.spec_symbols();
    let sb = spec_num_bits(ss.len());
    let yb = spec_num_bits(ys.len());
    let acc = join_codes(accepting_codes(g, ss, ss.len() as int), sb, Symbol::Semi);
    let b = code_symbols(position(ys, g.spec_blank()) as nat, yb);
    let rs = serialize_rules_view(rules, sb, yb);
    1 + acc.len() + 1 + b.len() + 1 + rs.len()
}

/// The first phase of a simulated step: from `$` at the start of an
/// encoded guest, in `Init`, the universal machine walks over the
/// accepting states, the blank and the rules, and turns back in
/// `MarkRule` on the last symbol of the rules section, the tape unchanged.
pub proof fn lemma_init_phase<Spec: TuringMachineSpec>(
    u: &MyUtmSpec,
    g: &Spec,
    rules: Seq<RuleView>,
    state: Spec::State,
    tape: Seq<Spec::Symbol>,
)
    requires
        is_utm(u),
    ensures
        ({
            let e = encode_spec(g, rules, state, tape);
            let p3 = rules_end(g, rules);
            &&& p3 < e.len()
            &&& e[p3 as int] == Symbol::Hash
            &&& steps(u, TmConfig { state: State::Init, pos: 0, tape: e }, p3 + 1) == Some(
                TmConfig { state: State::MarkRule, pos: (p3 - 1) as nat, tape: e },
            )
        }),
{
    let ss = g.spec_states();
    let ys = g.spec_symbols();
    let sb = spec_num_bits(ss.len());
    let yb = spec_num_bits(ys.len());
    let acc = join_codes(accepting_codes(g, ss, ss.len() as int), sb, Symbol::Semi);
    let b = code_symbols(position(ys, g.spec_blank()) as nat, yb);
    let rs = serialize_rules_view(rules, sb, yb);
    let st = code_symbols(position(ss, state) as nat, sb);
    let ts = tape_section_spec(g, tape);
    let e = encode_spec(g, rules, state, tape);
    let h = Symbol::Hash;
    let a1 = seq![Symbol::Dollar] + acc;
    let a2 = a1 + seq![h] + b;
    let a3 = a2 + seq![h] + rs;
    let a4 = a3 + seq![h] + st + seq![h];
    assert(e =~= a4 + ts);
    let p1 = 1 + acc.len();
    let p2 = p1 + 1 + b.len();
    let p3 = p2 + 1 + rs.len();
    assert(p3 == rules_end(g, rules));
    lemma_join_codes_text(accepting_codes(g, ss, ss.len() as int), sb);
    lemma_code_bits(position(ys, g.spec_blank()) as nat, yb);
    lemma_rules_text(rules, sb, yb);
    lemma_init_phase_rules(u);
    // Positions of the section symbols.
    assert(e[0] == Symbol::Dollar) by {
        assert(e[0] == a4[0]);
        assert(a4[0] == a1[0]);
    }
    assert forall|k: int| 1 <= k < p1 implies is_acc_text(#[trigger] e[k]) by {
        assert(e[k] == a1[k]);
        assert(a1[k] == acc[k - 1]);
    }
    assert(e[p1 as int] == h) by {
        assert(e[p1 as int] == a2[p1 as int]);
    }
    assert forall|k: int| p1 + 1 <= k < p2 implies is_bit(#[trigger] e[k]) by {
        assert(e[k] == a2[k]);
        assert(a2[k] == b[k - p1 - 1]);
    }
    assert(e[p2 as int] == h) by {
        assert(e[p2 as int] == a3[p2 as int]);
    }
    assert forall|k: int| p2 + 1 <= k < p3 implies is_rule_text(#[trigger] e[k]) by {
        assert(e[k] == a3[k]);
        assert(a3[k] == rs[k - p2 - 1]);
    }
    assert(e[p3 as int] == h) by {
        assert(e[p3 as int] == a4[p3 as int]);
    }
    // The walk.
    let c0 = TmConfig { state: State::Init, pos: 0nat, tape: e };
    let c1 = TmConfig { state: State::Init, pos: 1nat, tape: e };
    assert(e.update(0, e[0]) =~= e);
    assert(steps(u, c0, 1) == Some(c1)) by {
        assert(step_config(u, c0) == Some(c1));
        assert(steps(u, c1, 0) == Some(c1));
    }
    assert forall|k: int| 1 <= k < p1 implies #[trigger] u.spec_transition(State::Init, e[k]) == Some(
        (State::Init, e[k], Dir::Right),
    ) by {
        assert(is_acc_text(e[k]));
    }
    lemma_scan_right(u, c1, p1);
    let c2 = TmConfig { state: State::Init, pos: p1, tape: e };
    let c3 = TmConfig { state: State::InitSkip, pos: p1 + 1, tape: e };
    assert(e.update(p1 as int, e[p1 as int]) =~= e);
    assert(steps(u, c2, 1) == Some(c3)) by {
        assert(step_config(u, c2) == Some(c3));
        assert(steps(u, c3, 0) == Some(c3));
    }
    assert forall|k: int| p1 + 1 <= k < p2 implies #[trigger] u.spec_transition(State::InitSkip, e[k]) == Some(
        (State::InitSkip, e[k], Dir::Right),
    ) by {
        assert(is_bit(e[k]));
    }
    lemma_scan_right(u, c3, p2);
    let c4 = TmConfig { state: State::InitSkip, pos: p2, tape: e };
    let c5 = TmConfig { state: State::InitSeekEnd, pos: p2 + 1, tape: e };
    assert(e.update(p2 as int, e[p2 as int]) =~= e);
    assert(steps(u, c4, 1) == Some(c5)) by {
        assert(step_config(u, c4) == Some(c5));
        assert(steps(u, c5, 0) == Some(c5));
    }
    assert forall|k: int| p2 + 1 <= k < p3 implies #[trigger] u.spec_transition(State::InitSeekEnd, e[k]) == Some(
        (State::InitSeekEnd, e[k], Dir::Right),
    ) by {
        assert(is_rule_text(e[k]));
    }
    lemma_scan_right(u, c5, p3);
    let c6 = TmConfig { state: State::InitSeekEnd, pos: p3, tape: e };
    let c7 = TmConfig { state: State::MarkRule, pos: (p3 - 1) as nat, tape: e };
    assert(e.update(p3 as int, e[p3 as int]) =~= e);
    assert(steps(u, c6, 1) == Some(c7)) by {
        assert(step_config(u, c6) == Some(c7));
        assert(steps(u, c7, 0) == Some(c7));
    }
    // Putting the pieces together.
    lemma_steps_add(u, c0, 1, (p1 - 1) as nat);
    lemma_steps_add(u, c0, p1, 1);
    lemma_steps_add(u, c0, p1 + 1, (p2 - p1 - 1) as nat);
    lemma_steps_add(u, c0, p2, 1);
    lemma_steps_add(u, c0, p2 + 1, (p3 - p2 - 1) as nat);
    lemma_steps_add(u, c0, p3, 1);
}

/// A symbol inside a rule after its `.`: a bit, `|`, `,`, `L` or `R`.
pub open spec fn is_rule_body(y: Symbol) -> bool {
    is_bit(y) || y == Symbol::Pipe || y == Symbol::Comma || y == Symbol::L || y == Symbol::R
}

/// Every symbol of `t` from `from` up to `to` is inside a rule.
pub open spec fn rule_body_between(t: Seq<Symbol>, from: int, to: int) -> bool {
    forall|k: int| from <= k < to ==> is_rule_body(#[trigger] t[k])
}

proof fn lemma_body_concat(a: Seq<Symbol>, b: Seq<Symbol>)
    requires
        rule_body_between(a, 0, a.len() as int),
        rule_body_between(b, 0, b.len() as int),
    ensures
        rule_body_between(a + b, 0, (a + b).len() as int),
{
    assert forall|k: int| 0 <= k < (a + b).len() implies is_rule_body(#[trigger] (a + b)[k]) by {
        if k < a.len() {
            assert((a + b)[k] == a[k]);
        } else {
            assert((a + b)[k] == b[k - a.len()]);
        }
    }
}

proof fn lemma_alternatives_body(syms: Seq<nat>, w: nat)
    ensures
        rule_body_between(alternatives(syms, w), 0, alternatives(syms, w).len() as int),
    decreases syms.len(),
{
    if syms.len() > 0 {
        let a = alternatives(syms.drop_last(), w);
        lemma_alternatives_body(syms.drop_last(), w);
        lemma_code_bits(syms.last(), w);
        lemma_body_concat(a, seq![Symbol::Comma]);
        lemma_body_concat(a + seq![Symbol::Comma], code_symbols(syms.last(), w));
    }
}

/// A rule's text is `.` and then symbols inside a rule only.
proof fn lemma_serialize_view_body(r: RuleView, sb: nat, yb: nat)
    ensures
        serialize_view(r, sb, yb).len() >= 1,
        serialize_view(r, sb, yb)[0] == Symbol::Dot,
        rule_body_between(serialize_view(r, sb, yb), 1, serialize_view(r, sb, yb).len() as int),
{
    let d = seq![Symbol::Dot];
    let p = seq![Symbol::Pipe];
    let v = serialize_view(r, sb, yb);
    let body = v.subrange(1, v.len() as int);
    match r {
        RuleView::Single { state, sym, new_state, new_sym, dir } => {
            let t = seq![Symbol::Pipe, dir_symbol(dir)];
            lemma_code_bits(state, sb);
            lemma_code_bits(sym, yb);
            lemma_code_bits(new_state, sb);
            lemma_code_bits(new_sym, yb);
            let b1 = code_symbols(state, sb) + p;
            lemma_body_concat(code_symbols(state, sb), p);
            let b2 = b1 + code_symbols(sym, yb);
            lemma_body_concat(b1, code_symbols(sym, yb));
            lemma_body_concat(b2, p);
            let b3 = b2 + p + code_symbols(new_state, sb);
            lemma_body_concat(b2 + p, code_symbols(new_state, sb));
            lemma_body_concat(b3, p);
            let b4 = b3 + p + code_symbols(new_sym, yb);
            lemma_body_concat(b3 + p, code_symbols(new_sym, yb));
            lemma_body_concat(b4, t);
            assert(v =~= d + (b4 + t));
            assert forall|k: int| 1 <= k < v.len() implies is_rule_body(#[trigger] v[k]) by {
                assert(v[k] == (b4 + t)[k - 1]);
            }
        },
        RuleView::NoopGroup { state, syms, dir } => {
            let t = seq![Symbol::Pipe, dir_symbol(dir)];
            lemma_code_bits(state, sb);
            lemma_alternatives_body(syms, yb);
            lemma_body_concat(code_symbols(state, sb), alternatives(syms, yb));
            let b1 = code_symbols(state, sb) + alternatives(syms, yb);
            lemma_body_concat(b1, t);
            assert(v =~= d + (b1 + t));
            assert forall|k: int| 1 <= k < v.len() implies is_rule_body(#[trigger] v[k]) by {
                assert(v[k] == (b1 + t)[k - 1]);
            }
        },
    }
}

/// A machine that keeps its state and the symbol and moves left over
/// every symbol of a stretch of tape crosses the whole stretch.
pub proof fn lemma_scan_left<Spec: TuringMachineSpec>(
    spec: &Spec,
    c: TmConfig<Spec::State, Spec::Symbol>,
    to: nat,
)
    requires
        to <= c.pos < c.tape.len(),
        forall|k: int|
            to < k <= c.pos ==> #[trigger] spec.spec_transition(c.state, c.tape[k]) == Some(
                (c.state, c.tape[k], Dir::Left),
            ),
    ensures
        steps(spec, c, (c.pos - to) as nat) == Some(TmConfig { state: c.state, pos: to, tape: c.tape }),
    decreases c.pos - to,
{
    if to < c.pos {
        let c2 = TmConfig { state: c.state, pos: (c.pos - 1) as nat, tape: c.tape };
        assert(c.tape.update(c.pos as int, c.tape[c.pos as int]) =~= c.tape);
        assert(step_config(spec, c) == Some(c2));
        lemma_scan_left(spec, c2, to);
    } else {
        assert(c == TmConfig { state: c.state, pos: to, tape: c.tape });
    }
}

/// The rules of the second phase, which moves left to the start of a
/// rule and marks it.
pub proof fn lemma_mark_rule_rules(u: &MyUtmSpec)
    requires
        is_utm(u),
    ensures
        forall|y: Symbol| is_rule_body(y) ==> #[trigger] u.spec_transition(State::MarkRule, y) == Some(
            (State::MarkRule, y, Dir::Left),
        ),
        u.spec_transition(State::MarkRule, Symbol::Semi) == Some((State::MarkRule, Symbol::Semi, Dir::Left)),
        u.spec_transition(State::MarkRule, Symbol::Dot) == Some((State::CmpStRead, Symbol::Star, Dir::Right)),
        u.spec_transition(State::MarkRule, Symbol::Hash) == Some((State::MarkRuleNoMatch, Symbol::Hash, Dir::Left)),
{
    reveal_with_fuel(listed, 16);
    lemma_utm_lookup(State::MarkRule, Symbol::Semi);
    lemma_utm_lookup(State::MarkRule, Symbol::Dot);
    lemma_utm_lookup(State::MarkRule, Symbol::Hash);
    assert forall|y: Symbol| is_rule_body(y) implies #[trigger] u.spec_transition(State::MarkRule, y) == Some(
        (State::MarkRule, y, Dir::Left),
    ) by {
        lemma_utm_lookup(State::MarkRule, y);
    }
}

/// The machine gets from `c` to `c2` in some number of steps.
pub open spec fn reaches<Spec: TuringMachineSpec>(
    spec: &Spec,
    c: TmConfig<Spec::State, Spec::Symbol>,
    c2: TmConfig<Spec::State, Spec::Symbol>,
) -> bool {
    exists|n: nat| #[trigger] steps(spec, c, n) == Some(c2)
}

/// A run of known length reaches its end.
pub proof fn lemma_reaches_steps<Spec: TuringMachineSpec>(
    spec: &Spec,
    c: TmConfig<Spec::State, Spec::Symbol>,
    n: nat,
    c2: TmConfig<Spec::State, Spec::Symbol>,
)
    requires
        steps(spec, c, n) == Some(c2),
    ensures
        reaches(spec, c, c2),
{
}

/// One step reaches its result.
pub proof fn lemma_reaches_step<Spec: TuringMachineSpec>(
    spec: &Spec,
    c: TmConfig<Spec::State, Spec::Symbol>,
    c2: TmConfig<Spec::State, Spec::Symbol>,
)
    requires
        step_config(spec, c) == Some(c2),
    ensures
        reaches(spec, c, c2),
{
    assert(steps(spec, c2, 0) == Some(c2));
    assert(steps(spec, c, 1) == Some(c2));
}

/// Reaching is transitive.
pub proof fn lemma_reaches_trans<Spec: TuringMachineSpec>(
    spec: &Spec,
    c1: TmConfig<Spec::State, Spec::Symbol>,
    c2: TmConfig<Spec::State, Spec::Symbol>,
    c3: TmConfig<Spec::State, Spec::Symbol>,
)
    requires
        reaches(spec, c1, c2),
        reaches(spec, c2, c3),
    ensures
        reaches(spec, c1, c3),
{
    let a = choose|n: nat| #[trigger] steps(spec, c1, n) == Some(c2);
    let b = choose|n: nat| #[trigger] steps(spec, c2, n) == Some(c3);
    lemma_steps_add(spec, c1, a, b);
    assert(steps(spec, c1, a + b) == Some(c3));
}

/// A bit as the universal machine marks it: `0` as `X`, `1` as `Y`.
pub open spec fn mark(y: Symbol) -> Symbol {
    if y == Symbol::Zero {
        Symbol::X
    } else if y == Symbol::One {
        Symbol::Y
    } else {
        y
    }
}

/// A marked bit.
pub open spec fn is_marked(y: Symbol) -> bool {
    y == Symbol::X || y == Symbol::Y
}

/// The tape with the first `i` bits of the rule's state (from `r`) and of
/// the current state (from `c`) marked.
pub open spec fn marked_pair(t: Seq<Symbol>, r: int, c: int, i: int) -> Seq<Symbol> {
    Seq::new(
        t.len(),
        |k: int|
            if (r <= k < r + i) || (c <= k < c + i) {
                mark(t[k])
            } else {
                t[k]
            },
    )
}

/// The rules of the third phase: comparing the marked rule's state, bit
/// by bit, with the current state.
pub proof fn lemma_compare_state_rules(u: &MyUtmSpec)
    requires
        is_utm(u),
    ensures
        u.spec_transition(State::CmpStRead, Symbol::Zero) == Some((State::CmpStC0, Symbol::X, Dir::Right)),
        u.spec_transition(State::CmpStRead, Symbol::One) == Some((State::CmpStC1, Symbol::Y, Dir::Right)),
        u.spec_transition(State::CmpStRead, Symbol::Pipe) == Some((State::StMatchCleanup, Symbol::Pipe, Dir::Right)),
        u.spec_transition(State::CmpStRead, Symbol::Comma) == Some((State::StMatchCleanup, Symbol::Comma, Dir::Right)),
        u.spec_transition(State::CmpStNextbit, Symbol::Zero) == Some((State::CmpStC0, Symbol::X, Dir::Right)),
        u.spec_transition(State::CmpStNextbit, Symbol::One) == Some((State::CmpStC1, Symbol::Y, Dir::Right)),
        u.spec_transition(State::CmpStNextbit, Symbol::Pipe) == Some((State::StMatchCleanup, Symbol::Pipe, Dir::Right)),
        u.spec_transition(State::CmpStNextbit, Symbol::Comma) == Some(
            (State::StMatchCleanup, Symbol::Comma, Dir::Right),
        ),
        forall|y: Symbol| is_marked(y) ==> #[trigger] u.spec_transition(State::CmpStNextbit, y) == Some(
            (State::CmpStNextbit, y, Dir::Right),
        ),
        forall|y: Symbol|
            (is_rule_text(y) || is_marked(y) || y == Symbol::Star || y == Symbol::Gt) ==> #[trigger] u.spec_transition(
                State::CmpStC0,
                y,
            ) == Some((State::CmpStC0, y, Dir::Right)),
        forall|y: Symbol|
            (is_rule_text(y) || is_marked(y) || y == Symbol::Star || y == Symbol::Gt) ==> #[trigger] u.spec_transition(
                State::CmpStC1,
                y,
            ) == Some((State::CmpStC1, y, Dir::Right)),
        u.spec_transition(State::CmpStC0, Symbol::Hash) == Some((State::CmpStC0Find, Symbol::Hash, Dir::Right)),
        u.spec_transition(State::CmpStC1, Symbol::Hash) == Some((State::CmpStC1Find, Symbol::Hash, Dir::Right)),
        forall|y: Symbol| is_marked(y) ==> #[trigger] u.spec_transition(State::CmpStC0Find, y) == Some(
            (State::CmpStC0Find, y, Dir::Right),
        ),
        forall|y: Symbol| is_marked(y) ==> #[trigger] u.spec_transition(State::CmpStC1Find, y) == Some(
            (State::CmpStC1Find, y, Dir::Right),
        ),
        u.spec_transition(State::CmpStC0Find, Symbol::Zero) == Some((State::CmpStOk, Symbol::X, Dir::Left)),
        u.spec_transition(State::CmpStC0Find, Symbol::One) == Some((State::CmpStFail, Symbol::Y, Dir::Left)),
        u.spec_transition(State::CmpStC1Find, Symbol::One) == Some((State::CmpStOk, Symbol::Y, Dir::Left)),
        u.spec_transition(State::CmpStC1Find, Symbol::Zero) == Some((State::CmpStFail, Symbol::X, Dir::Left)),
        forall|y: Symbol|
            (is_rule_text(y) || is_marked(y) || y == Symbol::Hash || y == Symbol::Caret || y == Symbol::Gt)
                ==> #[trigger] u.spec_transition(State::CmpStOk, y) == Some((State::CmpStOk, y, Dir::Left)),
        u.spec_transition(State::CmpStOk, Symbol::Star) == Some((State::CmpStNextbit, Symbol::Star, Dir::Right)),
{
    reveal_with_fuel(listed, 16);
    lemma_utm_lookup(State::CmpStRead, Symbol::Zero);
    lemma_utm_lookup(State::CmpStRead, Symbol::One);
    lemma_utm_lookup(State::CmpStRead, Symbol::Pipe);
    lemma_utm_lookup(State::CmpStRead, Symbol::Comma);
    lemma_utm_lookup(State::CmpStNextbit, Symbol::Zero);
    lemma_utm_lookup(State::CmpStNextbit, Symbol::One);
    lemma_utm_lookup(State::CmpStNextbit, Symbol::Pipe);
    lemma_utm_lookup(State::CmpStNextbit, Symbol::Comma);
    lemma_utm_lookup(State::CmpStC0, Symbol::Hash);
    lemma_utm_lookup(State::CmpStC1, Symbol::Hash);
    lemma_utm_lookup(State::CmpStC0Find, Symbol::Zero);
    lemma_utm_lookup(State::CmpStC0Find, Symbol::One);
    lemma_utm_lookup(State::CmpStC1Find, Symbol::Zero);
    lemma_utm_lookup(State::CmpStC1Find, Symbol::One);
    lemma_utm_lookup(State::CmpStOk, Symbol::Star);
    assert forall|y: Symbol| is_marked(y) implies #[trigger] u.spec_transition(State::CmpStNextbit, y) == Some(
        (State::CmpStNextbit, y, Dir::Right),
    ) by {
        lemma_utm_lookup(State::CmpStNextbit, y);
    }
    assert forall|y: Symbol|
        (is_rule_text(y) || is_marked(y) || y == Symbol::Star || y == Symbol::Gt) implies #[trigger] u.spec_transition(
            State::CmpStC0,
            y,
        ) == Some((State::CmpStC0, y, Dir::Right)) by {
        lemma_utm_lookup(State::CmpStC0, y);
    }
    assert forall|y: Symbol|
        (is_rule_text(y) || is_marked(y) || y == Symbol::Star || y == Symbol::Gt) implies #[trigger] u.spec_transition(
            State::CmpStC1,
            y,
        ) == Some((State::CmpStC1, y, Dir::Right)) by {
        lemma_utm_lookup(State::CmpStC1, y);
    }
    assert forall|y: Symbol| is_marked(y) implies #[trigger] u.spec_transition(State::CmpStC0Find, y) == Some(
        (State::CmpStC0Find, y, Dir::Right),
    ) by {
        lemma_utm_lookup(State::CmpStC0Find, y);
    }
    assert forall|y: Symbol| is_marked(y) implies #[trigger] u.spec_transition(State::CmpStC1Find, y) == Some(
        (State::CmpStC1Find, y, Dir::Right),
    ) by {
        lemma_utm_lookup(State::CmpStC1Find, y);
    }
    assert forall|y: Symbol|
        (is_rule_text(y) || is_marked(y) || y == Symbol::Hash || y == Symbol::Caret || y == Symbol::Gt)
            implies #[trigger] u.spec_transition(State::CmpStOk, y) == Some((State::CmpStOk, y, Dir::Left)) by {
        lemma_utm_lookup(State::CmpStOk, y);
    }
}

/// The layout in which the rule marked with `*` at `q` is compared with
/// the current state: the rule's state bits follow the `*`, then `|` or
/// `,` and rule text up to the `#` at `h`, and the current state's bits
/// follow that `#`.
pub open spec fn state_compare_layout(t: Seq<Symbol>, q: int, h: int, sb: int) -> bool {
    &&& 0 <= q
    &&& q + 1 + sb < h
    &&& h + 1 + sb <= t.len()
    &&& t[q] == Symbol::Star
    &&& bits_between(t, q + 1, q + 1 + sb)
    &&& bits_between(t, h + 1, h + 1 + sb)
    &&& (t[q + 1 + sb] == Symbol::Pipe || t[q + 1 + sb] == Symbol::Comma)
    &&& rule_text_between(t, q + 2 + sb, h)
    &&& t[h] == Symbol::Hash
}

/// One matching bit: from reading bit `i` of the rule's state, the
/// machine marks it and the same bit of the current state, and comes back
/// to read bit `i + 1`.
proof fn lemma_state_bit_matches(u: &MyUtmSpec, t: Seq<Symbol>, q: int, h: int, sb: int, i: int, rd: State)
    requires
        is_utm(u),
        state_compare_layout(t, q, h, sb),
        0 <= i < sb,
        t[q + 1 + i] == t[h + 1 + i],
        rd == State::CmpStRead || rd == State::CmpStNextbit,
    ensures
        reaches(
            u,
            TmConfig { state: rd, pos: (q + 1 + i) as nat, tape: marked_pair(t, q + 1, h + 1, i) },
            TmConfig { state: State::CmpStNextbit, pos: (q + 2 + i) as nat, tape: marked_pair(t, q + 1, h + 1, i + 1) },
        ),
{
    lemma_compare_state_rules(u);
    let tt = marked_pair(t, q + 1, h + 1, i);
    let b = t[q + 1 + i];
    assert(is_bit(t[q + 1 + i]));
    assert(is_bit(t[h + 1 + i]));
    let (cs, fs) = if b == Symbol::Zero {
        (State::CmpStC0, State::CmpStC0Find)
    } else {
        (State::CmpStC1, State::CmpStC1Find)
    };
    // Read and mark the rule's bit.
    let t1 = tt.update(q + 1 + i, mark(b));
    let c0 = TmConfig { state: rd, pos: (q + 1 + i) as nat, tape: tt };
    let c1 = TmConfig { state: cs, pos: (q + 2 + i) as nat, tape: t1 };
    assert(tt[q + 1 + i] == b);
    assert(step_config(u, c0) == Some(c1));
    lemma_reaches_step(u, c0, c1);
    // Carry it right to the `#`.
    assert forall|k: int| q + 2 + i <= k < h implies #[trigger] u.spec_transition(cs, t1[k]) == Some(
        (cs, t1[k], Dir::Right),
    ) by {
        assert(t1[k] == t[k]);
        if k < q + 1 + sb {
            assert(is_bit(t[k]));
        } else if k == q + 1 + sb {
        } else {
            assert(is_rule_text(t[k]));
        }
    }
    lemma_scan_right(u, c1, h as nat);
    let c2 = TmConfig { state: cs, pos: h as nat, tape: t1 };
    lemma_reaches_steps(u, c1, (h - (q + 2 + i)) as nat, c2);
    lemma_reaches_trans(u, c0, c1, c2);
    let c3 = TmConfig { state: fs, pos: (h + 1) as nat, tape: t1 };
    assert(t1[h] == Symbol::Hash);
    assert(t1.update(h, t1[h]) =~= t1);
    assert(step_config(u, c2) == Some(c3));
    lemma_reaches_step(u, c2, c3);
    lemma_reaches_trans(u, c0, c2, c3);
    // Skip the state's marked bits.
    assert forall|k: int| h + 1 <= k < h + 1 + i implies #[trigger] u.spec_transition(fs, t1[k]) == Some(
        (fs, t1[k], Dir::Right),
    ) by {
        assert(t1[k] == mark(t[k]));
        assert(is_bit(t[k]));
    }
    lemma_scan_right(u, c3, (h + 1 + i) as nat);
    let c4 = TmConfig { state: fs, pos: (h + 1 + i) as nat, tape: t1 };
    lemma_reaches_steps(u, c3, i as nat, c4);
    lemma_reaches_trans(u, c0, c3, c4);
    // Compare and mark the state's bit.
    let t2 = t1.update(h + 1 + i, mark(b));
    assert(t1[h + 1 + i] == b);
    let c5 = TmConfig { state: State::CmpStOk, pos: (h + i) as nat, tape: t2 };
    assert(step_config(u, c4) == Some(c5));
    lemma_reaches_step(u, c4, c5);
    lemma_reaches_trans(u, c0, c4, c5);
    let tn = marked_pair(t, q + 1, h + 1, i + 1);
    assert(t2 =~= tn);
    // Back to the `*`.
    assert forall|k: int| q < k <= h + i implies #[trigger] u.spec_transition(State::CmpStOk, t2[k]) == Some(
        (State::CmpStOk, t2[k], Dir::Left),
    ) by {
        if q + 1 <= k < q + 2 + i {
            assert(t2[k] == mark(t[k]));
            assert(is_bit(t[k]));
        } else if k < q + 1 + sb {
            assert(t2[k] == t[k]);
            assert(is_bit(t[k]));
        } else if k == q + 1 + sb {
            assert(t2[k] == t[k]);
        } else if k < h {
            assert(t2[k] == t[k]);
            assert(is_rule_text(t[k]));
        } else if k == h {
            assert(t2[k] == t[k]);
        } else {
            assert(t2[k] == mark(t[k]));
            assert(is_bit(t[k]));
        }
    }
    lemma_scan_left(u, c5, q as nat);
    let c6 = TmConfig { state: State::CmpStOk, pos: q as nat, tape: t2 };
    lemma_reaches_steps(u, c5, (h + i - q) as nat, c6);
    lemma_reaches_trans(u, c0, c5, c6);
    let c7 = TmConfig { state: State::CmpStNextbit, pos: (q + 1) as nat, tape: t2 };
    assert(t2[q] == Symbol::Star);
    assert(t2.update(q, t2[q]) =~= t2);
    assert(step_config(u, c6) == Some(c7));
    lemma_reaches_step(u, c6, c7);
    lemma_reaches_trans(u, c0, c6, c7);
    // Over the rule's marked bits.
    assert forall|k: int| q + 1 <= k < q + 2 + i implies #[trigger] u.spec_transition(State::CmpStNextbit, t2[k]) == Some(
        (State::CmpStNextbit, t2[k], Dir::Right),
    ) by {
        assert(t2[k] == mark(t[k]));
        assert(is_bit(t[k]));
    }
    lemma_scan_right(u, c7, (q + 2 + i) as nat);
    let c8 = TmConfig { state: State::CmpStNextbit, pos: (q + 2 + i) as nat, tape: t2 };
    lemma_reaches_steps(u, c7, (i + 1) as nat, c8);
    lemma_reaches_trans(u, c0, c7, c8);
}

/// The rule's state matches the current state: from reading bit `i`, the
/// machine marks the remaining bits of both and leaves the rule's state on
/// the `|` or `,` after it, in `StMatchCleanup`.
pub proof fn lemma_state_bits_match(u: &MyUtmSpec, t: Seq<Symbol>, q: int, h: int, sb: int, i: int, rd: State)
    requires
        is_utm(u),
        state_compare_layout(t, q, h, sb),
        0 <= i <= sb,
        forall|k: int| 0 <= k < sb ==> #[trigger] t[q + 1 + k] == t[h + 1 + k],
        rd == State::CmpStRead || rd == State::CmpStNextbit,
    ensures
        reaches(
            u,
            TmConfig { state: rd, pos: (q + 1 + i) as nat, tape: marked_pair(t, q + 1, h + 1, i) },
            TmConfig { state: State::StMatchCleanup, pos: (q + 2 + sb) as nat, tape: marked_pair(t, q + 1, h + 1, sb) },
        ),
    decreases sb - i,
{
    lemma_compare_state_rules(u);
    if i < sb {
        assert(t[q + 1 + i] == t[h + 1 + i]);
        lemma_state_bit_matches(u, t, q, h, sb, i, rd);
        lemma_state_bits_match(u, t, q, h, sb, i + 1, State::CmpStNextbit);
        lemma_reaches_trans(
            u,
            TmConfig { state: rd, pos: (q + 1 + i) as nat, tape: marked_pair(t, q + 1, h + 1, i) },
            TmConfig { state: State::CmpStNextbit, pos: (q + 2 + i) as nat, tape: marked_pair(t, q + 1, h + 1, i + 1) },
            TmConfig { state: State::StMatchCleanup, pos: (q + 2 + sb) as nat, tape: marked_pair(t, q + 1, h + 1, sb) },
        );
    } else {
        let tt = marked_pair(t, q + 1, h + 1, sb);
        let c0 = TmConfig { state: rd, pos: (q + 1 + sb) as nat, tape: tt };
        assert(tt[q + 1 + sb] == t[q + 1 + sb]);
        assert(tt.update(q + 1 + sb, tt[q + 1 + sb]) =~= tt);
        let c1 = TmConfig { state: State::StMatchCleanup, pos: (q + 2 + sb) as nat, tape: tt };
        assert(step_config(u, c0) == Some(c1));
        lemma_reaches_step(u, c0, c1);
    }
}

/// The state code of a rule.
pub open spec fn rule_state(r: RuleView) -> nat {
    match r {
        RuleView::Single { state, .. } => state,
        RuleView::NoopGroup { state, .. } => state,
    }
}

proof fn lemma_alternatives_first(syms: Seq<nat>, w: nat)
    requires
        syms.len() > 0,
    ensures
        alternatives(syms, w).len() > 0,
        alternatives(syms, w)[0] == Symbol::Comma,
    decreases syms.len(),
{
    let a = alternatives(syms.drop_last(), w);
    if syms.len() > 1 {
        lemma_alternatives_first(syms.drop_last(), w);
        assert(alternatives(syms, w)[0] == a[0]);
    } else {
        assert(a.len() == 0);
        assert(alternatives(syms, w)[0] == (a + seq![Symbol::Comma])[0]);
    }
}

/// A rule's text starts with `.`, its state's code and then `|` or `,`.
proof fn lemma_serialize_view_head(r: RuleView, sb: nat, yb: nat)
    ensures
        serialize_view(r, sb, yb).len() > 1 + sb,
        forall|k: int| 0 <= k < sb ==> #[trigger] serialize_view(r, sb, yb)[1 + k] == code_symbols(rule_state(r), sb)[k],
        serialize_view(r, sb, yb)[(1 + sb) as int] == Symbol::Pipe || serialize_view(r, sb, yb)[(1 + sb) as int] == Symbol::Comma,
{
    crate::binary::lemma_binary_len(rule_state(r), sb);
    let v = serialize_view(r, sb, yb);
    let d = seq![Symbol::Dot];
    let cs = code_symbols(rule_state(r), sb);
    assert(cs.len() == sb);
    match r {
        RuleView::Single { state, sym, new_state, new_sym, dir } => {
            let rest = seq![Symbol::Pipe] + code_symbols(sym, yb) + seq![Symbol::Pipe] + code_symbols(new_state, sb)
                + seq![Symbol::Pipe] + code_symbols(new_sym, yb) + seq![Symbol::Pipe, dir_symbol(dir)];
            assert(v =~= d + cs + rest);
            assert(v[(1 + sb) as int] == rest[0]);
        },
        RuleView::NoopGroup { state, syms, dir } => {
            let rest = alternatives(syms, yb) + seq![Symbol::Pipe, dir_symbol(dir)];
            assert(v =~= d + cs + rest);
            if syms.len() > 0 {
                lemma_alternatives_first(syms, yb);
                assert(rest[0] == alternatives(syms, yb)[0]);
            } else {
                assert(alternatives(syms, yb).len() == 0);
                assert(rest[0] == Symbol::Pipe);
            }
            assert(v[(1 + sb) as int] == rest[0]);
        },
    }
}

/// A marked bit as it was: `X` as `0`, `Y` as `1`.
pub open spec fn unmark(y: Symbol) -> Symbol {
    if y == Symbol::X {
        Symbol::Zero
    } else if y == Symbol::Y {
        Symbol::One
    } else {
        y
    }
}

/// The tape with the cells from `a` up to `b` unmarked.
pub open spec fn unmarked_range(t: Seq<Symbol>, a: int, b: int) -> Seq<Symbol> {
    Seq::new(t.len(), |k: int| if a <= k < b { unmark(t[k]) } else { t[k] })
}

/// A state that moves right over bits and turns marked bits back into
/// bits unmarks a whole stretch of bits and marked bits.
pub proof fn lemma_restore_right(u: &MyUtmSpec, c: TmConfig<State, Symbol>, to: nat)
    requires
        c.pos <= to <= c.tape.len(),
        forall|k: int| c.pos <= k < to ==> is_bit(#[trigger] c.tape[k]) || is_marked(c.tape[k]),
        u.spec_transition(c.state, Symbol::Zero) == Some((c.state, Symbol::Zero, Dir::Right)),
        u.spec_transition(c.state, Symbol::One) == Some((c.state, Symbol::One, Dir::Right)),
        u.spec_transition(c.state, Symbol::X) == Some((c.state, Symbol::Zero, Dir::Right)),
        u.spec_transition(c.state, Symbol::Y) == Some((c.state, Symbol::One, Dir::Right)),
    ensures
        steps(u, c, (to - c.pos) as nat) == Some(
            TmConfig { state: c.state, pos: to, tape: unmarked_range(c.tape, c.pos as int, to as int) },
        ),
    decreases to - c.pos,
{
    if c.pos < to {
        let t2 = c.tape.update(c.pos as int, unmark(c.tape[c.pos as int]));
        let c2 = TmConfig { state: c.state, pos: c.pos + 1, tape: t2 };
        assert(step_config(u, c) == Some(c2));
        lemma_restore_right(u, c2, to);
        assert(unmarked_range(t2, (c.pos + 1) as int, to as int) =~= unmarked_range(c.tape, c.pos as int, to as int));
    } else {
        assert(unmarked_range(c.tape, c.pos as int, to as int) =~= c.tape);
    }
}

/// The rules that undo a failed state comparison.
pub proof fn lemma_state_mismatch_rules(u: &MyUtmSpec)
    requires
        is_utm(u),
    ensures
        forall|y: Symbol| (is_bit(y) || is_marked(y)) ==> #[trigger] u.spec_transition(State::CmpStFail, y) == Some(
            (State::CmpStFail, y, Dir::Left),
        ),
        u.spec_transition(State::CmpStFail, Symbol::Hash) == Some((State::StfRestoreState, Symbol::Hash, Dir::Right)),
        u.spec_transition(State::StfRestoreState, Symbol::Zero) == Some((State::StfRestoreState, Symbol::Zero, Dir::Right)),
        u.spec_transition(State::StfRestoreState, Symbol::One) == Some((State::StfRestoreState, Symbol::One, Dir::Right)),
        u.spec_transition(State::StfRestoreState, Symbol::X) == Some((State::StfRestoreState, Symbol::Zero, Dir::Right)),
        u.spec_transition(State::StfRestoreState, Symbol::Y) == Some((State::StfRestoreState, Symbol::One, Dir::Right)),
        u.spec_transition(State::StfRestoreState, Symbol::Hash) == Some((State::StfFindStar, Symbol::Hash, Dir::Left)),
        forall|y: Symbol|
            (is_rule_text(y) || is_marked(y) || y == Symbol::Hash || y == Symbol::Gt) ==> #[trigger] u.spec_transition(
                State::StfFindStar,
                y,
            ) == Some((State::StfFindStar, y, Dir::Left)),
        u.spec_transition(State::StfFindStar, Symbol::Star) == Some((State::StfRestoreRule, Symbol::Dot, Dir::Right)),
        u.spec_transition(State::StfRestoreRule, Symbol::Zero) == Some((State::StfRestoreRule, Symbol::Zero, Dir::Right)),
        u.spec_transition(State::StfRestoreRule, Symbol::One) == Some((State::StfRestoreRule, Symbol::One, Dir::Right)),
        u.spec_transition(State::StfRestoreRule, Symbol::X) == Some((State::StfRestoreRule, Symbol::Zero, Dir::Right)),
        u.spec_transition(State::StfRestoreRule, Symbol::Y) == Some((State::StfRestoreRule, Symbol::One, Dir::Right)),
        u.spec_transition(State::StfRestoreRule, Symbol::Pipe) == Some((State::StfGoPrev, Symbol::Pipe, Dir::Left)),
        u.spec_transition(State::StfRestoreRule, Symbol::Comma) == Some((State::StfGoPrev, Symbol::Comma, Dir::Left)),
        forall|y: Symbol| is_bit(y) ==> #[trigger] u.spec_transition(State::StfGoPrev, y) == Some(
            (State::StfGoPrev, y, Dir::Left),
        ),
        u.spec_transition(State::StfGoPrev, Symbol::Dot) == Some((State::MarkRule, Symbol::Dot, Dir::Left)),
{
    reveal_with_fuel(listed, 16);
    lemma_utm_lookup(State::CmpStFail, Symbol::Hash);
    lemma_utm_lookup(State::StfRestoreState, Symbol::Zero);
    lemma_utm_lookup(State::StfRestoreState, Symbol::One);
    lemma_utm_lookup(State::StfRestoreState, Symbol::X);
    lemma_utm_lookup(State::StfRestoreState, Symbol::Y);
    lemma_utm_lookup(State::StfRestoreState, Symbol::Hash);
    lemma_utm_lookup(State::StfFindStar, Symbol::Star);
    lemma_utm_lookup(State::StfRestoreRule, Symbol::Zero);
    lemma_utm_lookup(State::StfRestoreRule, Symbol::One);
    lemma_utm_lookup(State::StfRestoreRule, Symbol::X);
    lemma_utm_lookup(State::StfRestoreRule, Symbol::Y);
    lemma_utm_lookup(State::StfRestoreRule, Symbol::Pipe);
    lemma_utm_lookup(State::StfRestoreRule, Symbol::Comma);
    lemma_utm_lookup(State::StfGoPrev, Symbol::Dot);
    assert forall|y: Symbol| (is_bit(y) || is_marked(y)) implies #[trigger] u.spec_transition(State::CmpStFail, y) == Some(
        (State::CmpStFail, y, Dir::Left),
    ) by {
        lemma_utm_lookup(State::CmpStFail, y);
    }
    assert forall|y: Symbol|
        (is_rule_text(y) || is_marked(y) || y == Symbol::Hash || y == Symbol::Gt) implies #[trigger] u.spec_transition(
            State::StfFindStar,
            y,
        ) == Some((State::StfFindStar, y, Dir::Left)) by {
        lemma_utm_lookup(State::StfFindStar, y);
    }
    assert forall|y: Symbol| is_bit(y) implies #[trigger] u.spec_transition(State::StfGoPrev, y) == Some(
        (State::StfGoPrev, y, Dir::Left),
    ) by {
        lemma_utm_lookup(State::StfGoPrev, y);
    }
}

/// One differing bit: from reading bit `i` of the rule's state, where the
/// earlier bits matched and bit `i` does not, the machine restores the
/// current state and the rule, puts back the rule's `.` and goes on left of
/// it in `MarkRule`.
proof fn lemma_state_bit_differs(u: &MyUtmSpec, t: Seq<Symbol>, q: int, h: int, sb: int, i: int, rd: State)
    requires
        is_utm(u),
        state_compare_layout(t, q, h, sb),
        h + 1 + sb < t.len(),
        t[h + 1 + sb] == Symbol::Hash,
        q >= 1,
        0 <= i < sb,
        t[q + 1 + i] != t[h + 1 + i],
        rd == State::CmpStRead || rd == State::CmpStNextbit,
    ensures
        reaches(
            u,
            TmConfig { state: rd, pos: (q + 1 + i) as nat, tape: marked_pair(t, q + 1, h + 1, i) },
            TmConfig { state: State::MarkRule, pos: (q - 1) as nat, tape: t.update(q, Symbol::Dot) },
        ),
{
    lemma_compare_state_rules(u);
    lemma_state_mismatch_rules(u);
    let tt = marked_pair(t, q + 1, h + 1, i);
    let b = t[q + 1 + i];
    assert(is_bit(t[q + 1 + i]));
    assert(is_bit(t[h + 1 + i]));
    let (cs, fs) = if b == Symbol::Zero {
        (State::CmpStC0, State::CmpStC0Find)
    } else {
        (State::CmpStC1, State::CmpStC1Find)
    };
    let t1 = tt.update(q + 1 + i, mark(b));
    let c0 = TmConfig { state: rd, pos: (q + 1 + i) as nat, tape: tt };
    let c1 = TmConfig { state: cs, pos: (q + 2 + i) as nat, tape: t1 };
    assert(tt[q + 1 + i] == b);
    assert(step_config(u, c0) == Some(c1));
    lemma_reaches_step(u, c0, c1);
    assert forall|k: int| q + 2 + i <= k < h implies #[trigger] u.spec_transition(cs, t1[k]) == Some(
        (cs, t1[k], Dir::Right),
    ) by {
        assert(t1[k] == t[k]);
        if k < q + 1 + sb {
            assert(is_bit(t[k]));
        } else if k == q + 1 + sb {
        } else {
            assert(is_rule_text(t[k]));
        }
    }
    lemma_scan_right(u, c1, h as nat);
    let c2 = TmConfig { state: cs, pos: h as nat, tape: t1 };
    lemma_reaches_steps(u, c1, (h - (q + 2 + i)) as nat, c2);
    lemma_reaches_trans(u, c0, c1, c2);
    let c3 = TmConfig { state: fs, pos: (h + 1) as nat, tape: t1 };
    assert(t1[h] == Symbol::Hash);
    assert(t1.update(h, t1[h]) =~= t1);
    assert(step_config(u, c2) == Some(c3));
    lemma_reaches_step(u, c2, c3);
    lemma_reaches_trans(u, c0, c2, c3);
    assert forall|k: int| h + 1 <= k < h + 1 + i implies #[trigger] u.spec_transition(fs, t1[k]) == Some(
        (fs, t1[k], Dir::Right),
    ) by {
        assert(t1[k] == mark(t[k]));
        assert(is_bit(t[k]));
    }
    lemma_scan_right(u, c3, (h + 1 + i) as nat);
    let c4 = TmConfig { state: fs, pos: (h + 1 + i) as nat, tape: t1 };
    lemma_reaches_steps(u, c3, i as nat, c4);
    lemma_reaches_trans(u, c0, c3, c4);
    // The state's bit differs.
    let sbit = t[h + 1 + i];
    let t2 = t1.update(h + 1 + i, mark(sbit));
    assert(t1[h + 1 + i] == sbit);
    let c5 = TmConfig { state: State::CmpStFail, pos: (h + i) as nat, tape: t2 };
    assert(step_config(u, c4) == Some(c5));
    lemma_reaches_step(u, c4, c5);
    lemma_reaches_trans(u, c0, c4, c5);
    assert(t2 =~= marked_pair(t, q + 1, h + 1, i + 1));
    // Back to the `#` before the current state.
    assert forall|k: int| h < k <= h + i implies #[trigger] u.spec_transition(State::CmpStFail, t2[k]) == Some(
        (State::CmpStFail, t2[k], Dir::Left),
    ) by {
        assert(t2[k] == mark(t[k]));
        assert(is_bit(t[k]));
    }
    lemma_scan_left(u, c5, h as nat);
    let c6 = TmConfig { state: State::CmpStFail, pos: h as nat, tape: t2 };
    lemma_reaches_steps(u, c5, i as nat, c6);
    lemma_reaches_trans(u, c0, c5, c6);
    let c7 = TmConfig { state: State::StfRestoreState, pos: (h + 1) as nat, tape: t2 };
    assert(t2[h] == Symbol::Hash);
    assert(t2.update(h, t2[h]) =~= t2);
    assert(step_config(u, c6) == Some(c7));
    lemma_reaches_step(u, c6, c7);
    lemma_reaches_trans(u, c0, c6, c7);
    // Restore the current state.
    assert forall|k: int| h + 1 <= k < h + 1 + sb implies is_bit(#[trigger] t2[k]) || is_marked(t2[k]) by {
        assert(is_bit(t[k]));
    }
    lemma_restore_right(u, c7, (h + 1 + sb) as nat);
    let t3 = unmarked_range(t2, h + 1, h + 1 + sb);
    let c8 = TmConfig { state: State::StfRestoreState, pos: (h + 1 + sb) as nat, tape: t3 };
    lemma_reaches_steps(u, c7, sb as nat, c8);
    lemma_reaches_trans(u, c0, c7, c8);
    let c9 = TmConfig { state: State::StfFindStar, pos: (h + sb) as nat, tape: t3 };
    assert(t3[h + 1 + sb] == Symbol::Hash);
    assert(t3.update(h + 1 + sb, t3[h + 1 + sb]) =~= t3);
    assert(step_config(u, c8) == Some(c9));
    lemma_reaches_step(u, c8, c9);
    lemma_reaches_trans(u, c0, c8, c9);
    // Back to the `*`.
    assert forall|k: int| q < k <= h + sb implies #[trigger] u.spec_transition(State::StfFindStar, t3[k]) == Some(
        (State::StfFindStar, t3[k], Dir::Left),
    ) by {
        if q + 1 <= k < q + 2 + i {
            assert(t3[k] == mark(t[k]));
            assert(is_bit(t[k]));
        } else if k < q + 1 + sb {
            assert(t3[k] == t[k]);
            assert(is_bit(t[k]));
        } else if k == q + 1 + sb {
            assert(t3[k] == t[k]);
        } else if k < h {
            assert(t3[k] == t[k]);
            assert(is_rule_text(t[k]));
        } else if k == h {
            assert(t3[k] == t[k]);
        } else {
            assert(is_bit(t[k]));
            assert(t3[k] == unmark(t2[k]));
        }
    }
    lemma_scan_left(u, c9, q as nat);
    let c10 = TmConfig { state: State::StfFindStar, pos: q as nat, tape: t3 };
    lemma_reaches_steps(u, c9, (h + sb - q) as nat, c10);
    lemma_reaches_trans(u, c0, c9, c10);
    let t4 = t3.update(q, Symbol::Dot);
    assert(t3[q] == Symbol::Star);
    let c11 = TmConfig { state: State::StfRestoreRule, pos: (q + 1) as nat, tape: t4 };
    assert(step_config(u, c10) == Some(c11));
    lemma_reaches_step(u, c10, c11);
    lemma_reaches_trans(u, c0, c10, c11);
    // Restore the rule's state.
    assert forall|k: int| q + 1 <= k < q + 1 + sb implies is_bit(#[trigger] t4[k]) || is_marked(t4[k]) by {
        assert(is_bit(t[k]));
    }
    lemma_restore_right(u, c11, (q + 1 + sb) as nat);
    let t5 = unmarked_range(t4, q + 1, q + 1 + sb);
    let c12 = TmConfig { state: State::StfRestoreRule, pos: (q + 1 + sb) as nat, tape: t5 };
    lemma_reaches_steps(u, c11, sb as nat, c12);
    lemma_reaches_trans(u, c0, c11, c12);
    let tf = t.update(q, Symbol::Dot);
    assert forall|k: int| 0 <= k < t.len() implies #[trigger] t5[k] == tf[k] by {
        if q + 1 <= k < q + 1 + sb || h + 1 <= k < h + 1 + sb {
            assert(is_bit(t[k]));
        }
    }
    assert(t5 =~= tf);
    let c13 = TmConfig { state: State::StfGoPrev, pos: (q + sb) as nat, tape: tf };
    assert(tf[q + 1 + sb] == t[q + 1 + sb]);
    assert(tf.update(q + 1 + sb, tf[q + 1 + sb]) =~= tf);
    assert(step_config(u, c12) == Some(c13));
    lemma_reaches_step(u, c12, c13);
    lemma_reaches_trans(u, c0, c12, c13);
    // Left over the rule's state to its `.`.
    assert forall|k: int| q < k <= q + sb implies #[trigger] u.spec_transition(State::StfGoPrev, tf[k]) == Some(
        (State::StfGoPrev, tf[k], Dir::Left),
    ) by {
        assert(tf[k] == t[k]);
        assert(is_bit(t[k]));
    }
    lemma_scan_left(u, c13, q as nat);
    let c14 = TmConfig { state: State::StfGoPrev, pos: q as nat, tape: tf };
    lemma_reaches_steps(u, c13, sb as nat, c14);
    lemma_reaches_trans(u, c0, c13, c14);
    let c15 = TmConfig { state: State::MarkRule, pos: (q - 1) as nat, tape: tf };
    assert(tf.update(q, tf[q]) =~= tf);
    assert(step_config(u, c14) == Some(c15));
    lemma_reaches_step(u, c14, c15);
    lemma_reaches_trans(u, c0, c14, c15);
}

/// The rule's state differs from the current state: from reading bit `i`,
/// the earlier bits having matched, the machine finds the difference,
/// restores the tape with the rule's `.` back in place, and goes on left of
/// the rule in `MarkRule`.
pub proof fn lemma_state_bits_differ(u: &MyUtmSpec, t: Seq<Symbol>, q: int, h: int, sb: int, i: int, rd: State)
    requires
        is_utm(u),
        state_compare_layout(t, q, h, sb),
        h + 1 + sb < t.len(),
        t[h + 1 + sb] == Symbol::Hash,
        q >= 1,
        0 <= i <= sb,
        forall|k: int| 0 <= k < i ==> #[trigger] t[q + 1 + k] == t[h + 1 + k],
        exists|k: int| i <= k < sb && #[trigger] t[q + 1 + k] != t[h + 1 + k],
        rd == State::CmpStRead || rd == State::CmpStNextbit,
    ensures
        reaches(
            u,
            TmConfig { state: rd, pos: (q + 1 + i) as nat, tape: marked_pair(t, q + 1, h + 1, i) },
            TmConfig { state: State::MarkRule, pos: (q - 1) as nat, tape: t.update(q, Symbol::Dot) },
        ),
    decreases sb - i,
{
    if t[q + 1 + i] != t[h + 1 + i] {
        lemma_state_bit_differs(u, t, q, h, sb, i, rd);
    } else {
        let k0 = choose|k: int| i <= k < sb && #[trigger] t[q + 1 + k] != t[h + 1 + k];
        assert(k0 != i);
        lemma_state_bit_matches(u, t, q, h, sb, i, rd);
        assert forall|k: int| 0 <= k < i + 1 implies #[trigger] t[q + 1 + k] == t[h + 1 + k] by {
        }
        assert(t[q + 1 + k0] != t[h + 1 + k0]);
        lemma_state_bits_differ(u, t, q, h, sb, i + 1, State::CmpStNextbit);
        lemma_reaches_trans(
            u,
            TmConfig { state: rd, pos: (q + 1 + i) as nat, tape: marked_pair(t, q + 1, h + 1, i) },
            TmConfig { state: State::CmpStNextbit, pos: (q + 2 + i) as nat, tape: marked_pair(t, q + 1, h + 1, i + 1) },
            TmConfig { state: State::MarkRule, pos: (q - 1) as nat, tape: t.update(q, Symbol::Dot) },
        );
    }
}

/// Codes that fit a width and have the same symbols are the same code.
proof fn lemma_code_symbols_injective(a: nat, c: nat, w: nat)
    requires
        a < two_pow(w),
        c < two_pow(w),
        forall|k: int| 0 <= k < w ==> #[trigger] code_symbols(a, w)[k] == code_symbols(c, w)[k],
    ensures
        a == c,
{
    lemma_binary_value(a, w);
    lemma_binary_value(c, w);
    assert forall|k: int| 0 <= k < w implies #[trigger] binary(a, w)[k] == binary(c, w)[k] by {
        assert(code_symbols(a, w)[k] == bit_symbol(binary(a, w)[k]));
        assert(code_symbols(c, w)[k] == bit_symbol(binary(c, w)[k]));
    }
    assert(binary(a, w) =~= binary(c, w));
}

/// Where the rules section of an encoding begins.
pub open spec fn rules_begin<Spec: TuringMachineSpec>(g: &Spec) -> nat {
    let ss = g.spec_states();
    let ys = g.spec_symbols();
    let sb = spec_num_bits(ss.len());
    let yb = spec_num_bits(ys.len());
    let acc = join_codes(accepting_codes(g, ss, ss.len() as int), sb, Symbol::Semi);
    let b = code_symbols(position(ys, g.spec_blank()) as nat, yb);
    1 + acc.len() + 1 + b.len() + 1
}

/// Where the text of rule `m` starts in the rules section.
pub open spec fn rule_offset(rules: Seq<RuleView>, m: int, sb: nat, yb: nat) -> int {
    if m == 0 {
        0int
    } else {
        serialize_rules_view(rules.take(m), sb, yb).len() + 1int
    }
}

/// Where the text of rule `m` starts in an encoding: the position of its
/// `.`.
pub open spec fn rule_start<Spec: TuringMachineSpec>(g: &Spec, rules: Seq<RuleView>, m: int) -> int {
    let sb = spec_num_bits(g.spec_states().len());
    let yb = spec_num_bits(g.spec_symbols().len());
    rules_begin(g) + rule_offset(rules, m, sb, yb)
}

proof fn lemma_srv_step(rules: Seq<RuleView>, j: int, sb: nat, yb: nat)
    requires
        1 <= j < rules.len(),
    ensures
        serialize_rules_view(rules.take(j + 1), sb, yb) == serialize_rules_view(rules.take(j), sb, yb) + seq![Symbol::Semi]
            + serialize_view(rules[j], sb, yb),
{
    let t = rules.take(j + 1);
    assert(t.drop_last() =~= rules.take(j));
    assert(t.last() == rules[j]);
}

proof fn lemma_srv_prefix(rules: Seq<RuleView>, j: int, sb: nat, yb: nat)
    requires
        1 <= j <= rules.len(),
    ensures
        serialize_rules_view(rules.take(j), sb, yb).len() <= serialize_rules_view(rules, sb, yb).len(),
        forall|k: int|
            0 <= k < serialize_rules_view(rules.take(j), sb, yb).len() ==> #[trigger] serialize_rules_view(rules, sb, yb)[k]
                == serialize_rules_view(rules.take(j), sb, yb)[k],
    decreases rules.len() - j,
{
    if j == rules.len() {
        assert(rules.take(j) =~= rules);
    } else {
        lemma_srv_prefix(rules, j + 1, sb, yb);
        lemma_srv_step(rules, j, sb, yb);
    }
}

/// Where rule `m`'s text stands in the rules section, and what precedes it.
proof fn lemma_rule_in_section(rules: Seq<RuleView>, m: int, sb: nat, yb: nat)
    requires
        0 <= m < rules.len(),
    ensures
        ({
            let rs = serialize_rules_view(rules, sb, yb);
            let o = rule_offset(rules, m, sb, yb);
            let v = serialize_view(rules[m], sb, yb);
            &&& o + v.len() == serialize_rules_view(rules.take(m + 1), sb, yb).len()
            &&& o + v.len() <= rs.len()
            &&& forall|k: int| 0 <= k < v.len() ==> #[trigger] rs[o + k] == v[k]
            &&& m > 0 ==> rs[o - 1] == Symbol::Semi
        }),
{
    let rs = serialize_rules_view(rules, sb, yb);
    let v = serialize_view(rules[m], sb, yb);
    lemma_srv_prefix(rules, m + 1, sb, yb);
    if m == 0 {
        assert(rules.take(1) =~= seq![rules[0]]);
        assert(serialize_rules_view(rules.take(1), sb, yb) == v);
        assert forall|k: int| 0 <= k < v.len() implies #[trigger] rs[0 + k] == v[k] by {
            assert(rs[k] == serialize_rules_view(rules.take(1), sb, yb)[k]);
        }
    } else {
        lemma_srv_step(rules, m, sb, yb);
        let pre = serialize_rules_view(rules.take(m), sb, yb);
        let s1 = serialize_rules_view(rules.take(m + 1), sb, yb);
        assert forall|k: int| 0 <= k < v.len() implies #[trigger] rs[pre.len() + 1 + k] == v[k] by {
            assert(rs[pre.len() + 1 + k] == s1[pre.len() + 1 + k]);
        }
        assert(rs[pre.len() as int] == s1[pre.len() as int]);
    }
}

/// The places of the rules and of the current state in an encoding.
proof fn lemma_encoding_layout<Spec: TuringMachineSpec>(
    g: &Spec,
    rules: Seq<RuleView>,
    state: Spec::State,
    tape: Seq<Spec::Symbol>,
)
    ensures
        ({
            let e = encode_spec(g, rules, state, tape);
            let ss = g.spec_states();
            let sb = spec_num_bits(ss.len());
            let yb = spec_num_bits(g.spec_symbols().len());
            let rs = serialize_rules_view(rules, sb, yb);
            let bb = rules_begin(g) as int;
            let h = rules_end(g, rules) as int;
            let st = code_symbols(position(ss, state) as nat, sb);
            &&& bb >= 1
            &&& h == bb + rs.len()
            &&& e[bb - 1] == Symbol::Hash
            &&& forall|k: int| 0 <= k < rs.len() ==> #[trigger] e[bb + k] == rs[k]
            &&& rule_text_between(e, bb, h)
            &&& e[h] == Symbol::Hash
            &&& h + 1 + sb < e.len()
            &&& e[h + 1 + sb] == Symbol::Hash
            &&& forall|k: int| 0 <= k < sb ==> #[trigger] e[h + 1 + k] == st[k]
            &&& bits_between(e, h + 1, h + 1 + sb)
        }),
{
    let ss = g.spec_states();
    let ys = g.spec_symbols();
    let sb = spec_num_bits(ss.len());
    let yb = spec_num_bits(ys.len());
    let acc = join_codes(accepting_codes(g, ss, ss.len() as int), sb, Symbol::Semi);
    let b = code_symbols(position(ys, g.spec_blank()) as nat, yb);
    let rs = serialize_rules_view(rules, sb, yb);
    let st = code_symbols(position(ss, state) as nat, sb);
    let ts = tape_section_spec(g, tape);
    let e = encode_spec(g, rules, state, tape);
    let hs = Symbol::Hash;
    let a1 = seq![Symbol::Dollar] + acc;
    let a2 = a1 + seq![hs] + b;
    let a3 = a2 + seq![hs] + rs;
    let a4 = a3 + seq![hs] + st + seq![hs];
    assert(e =~= a4 + ts);
    let bb = rules_begin(g) as int;
    let h = rules_end(g, rules) as int;
    crate::binary::lemma_binary_len(position(ss, state) as nat, sb);
    lemma_code_bits(position(ss, state) as nat, sb);
    lemma_rules_text(rules, sb, yb);
    assert(e[bb - 1] == hs) by {
        assert(e[bb - 1] == a3[bb - 1]);
        assert(a3[bb - 1] == (a2 + seq![hs])[bb - 1]);
    }
    assert forall|k: int| 0 <= k < rs.len() implies #[trigger] e[bb + k] == rs[k] by {
        assert(e[bb + k] == a3[bb + k]);
    }
    assert(rule_text_between(e, bb, h)) by {
        assert forall|k: int| bb <= k < h implies is_rule_text(#[trigger] e[k]) by {
            assert(e[bb + (k - bb)] == rs[k - bb]);
        }
    }
    assert(e[h] == hs) by {
        assert(e[h] == a4[h]);
    }
    assert(a4.len() == h + 1 + sb + 1);
    assert(e[h + 1 + sb] == hs) by {
        assert(e[h + 1 + sb] == a4[h + 1 + sb]);
    }
    assert forall|k: int| 0 <= k < sb implies #[trigger] e[h + 1 + k] == st[k] by {
        assert(e[h + 1 + k] == a4[h + 1 + k]);
    }
    assert(bits_between(e, h + 1, h + 1 + sb)) by {
        assert forall|k: int| h + 1 <= k < h + 1 + sb implies is_bit(#[trigger] e[k]) by {
            assert(e[h + 1 + (k - h - 1)] == st[k - h - 1]);
        }
    }
}

/// Marking rule `r`: in `MarkRule` on its last symbol, with the encoding
/// unchanged, the machine moves left to the rule's `.`, writes `*` over it
/// and enters `CmpStRead` on the rule's state, laid out for the comparison
/// with the current state.
#[verifier::rlimit(40)]
proof fn lemma_rule_marked<Spec: TuringMachineSpec>(
    u: &MyUtmSpec,
    g: &Spec,
    rules: Seq<RuleView>,
    state: Spec::State,
    tape: Seq<Spec::Symbol>,
    r: int,
)
    requires
        is_utm(u),
        0 <= r < rules.len(),
    ensures
        ({
            let e = encode_spec(g, rules, state, tape);
            let ss = g.spec_states();
            let sbn = spec_num_bits(ss.len());
            let sb = sbn as int;
            let yb = spec_num_bits(g.spec_symbols().len());
            let h = rules_end(g, rules) as int;
            let bb = rules_begin(g) as int;
            let q = rule_start(g, rules, r);
            let t = e.update(q, Symbol::Star);
            &&& q >= 1
            &&& e[q] == Symbol::Dot
            &&& reaches(
                u,
                TmConfig {
                    state: State::MarkRule,
                    pos: (bb - 1 + serialize_rules_view(rules.take(r + 1), sbn, yb).len()) as nat,
                    tape: e,
                },
                TmConfig { state: State::CmpStRead, pos: (q + 1) as nat, tape: t },
            )
            &&& state_compare_layout(t, q, h, sb)
            &&& h + 1 + sb < t.len()
            &&& t[h + 1 + sb] == Symbol::Hash
            &&& forall|k: int| 0 <= k < sb ==> #[trigger] t[q + 1 + k] == code_symbols(rule_state(rules[r]), sbn)[k]
            &&& forall|k: int| 0 <= k < sb ==> #[trigger] t[h + 1 + k] == code_symbols(position(ss, state) as nat, sbn)[k]
            &&& r > 0 ==> e[q - 1] == Symbol::Semi
            &&& r > 0 ==> q - 2 == bb - 1 + serialize_rules_view(rules.take(r), sbn, yb).len()
        }),
{
    let ss = g.spec_states();
    let sbn = spec_num_bits(ss.len());
    let yb = spec_num_bits(g.spec_symbols().len());
    let sb = sbn as int;
    let e = encode_spec(g, rules, state, tape);
    let rs = serialize_rules_view(rules, sbn, yb);
    let bb = rules_begin(g) as int;
    let h = rules_end(g, rules) as int;
    lemma_encoding_layout(g, rules, state, tape);
    lemma_rule_in_section(rules, r, sbn, yb);
    let v = serialize_view(rules[r], sbn, yb);
    let o = rule_offset(rules, r, sbn, yb);
    let q = bb + o;
    assert(q == rule_start(g, rules, r));
    assert(o + v.len() <= rs.len());
    lemma_serialize_view_body(rules[r], sbn, yb);
    lemma_serialize_view_head(rules[r], sbn, yb);
    crate::binary::lemma_binary_len(rule_state(rules[r]), sbn);
    lemma_code_bits(rule_state(rules[r]), sbn);
    lemma_mark_rule_rules(u);
    let end = bb - 1 + serialize_rules_view(rules.take(r + 1), sbn, yb).len();
    assert(end == q + v.len() - 1);
    assert forall|k: int| 0 <= k < v.len() implies #[trigger] e[q + k] == v[k] by {
        assert(0 <= o + k < rs.len());
        assert(rs[o + k] == v[k]);
        assert(e[bb + (o + k)] == rs[o + k]);
    }
    assert forall|k: int| q < k <= end implies #[trigger] u.spec_transition(State::MarkRule, e[k]) == Some(
        (State::MarkRule, e[k], Dir::Left),
    ) by {
        assert(e[q + (k - q)] == v[k - q]);
        assert(is_rule_body(v[k - q]));
    }
    let c0 = TmConfig { state: State::MarkRule, pos: end as nat, tape: e };
    lemma_scan_left(u, c0, q as nat);
    let c1 = TmConfig { state: State::MarkRule, pos: q as nat, tape: e };
    lemma_reaches_steps(u, c0, (end - q) as nat, c1);
    let t = e.update(q, Symbol::Star);
    assert(e[q + 0] == v[0]);
    let c2 = TmConfig { state: State::CmpStRead, pos: (q + 1) as nat, tape: t };
    assert(step_config(u, c1) == Some(c2));
    lemma_reaches_step(u, c1, c2);
    lemma_reaches_trans(u, c0, c1, c2);
    assert forall|k: int| 0 <= k < sb implies #[trigger] t[q + 1 + k] == code_symbols(rule_state(rules[r]), sbn)[k] by {
        assert(e[q + (1 + k)] == v[1 + k]);
    }
    assert forall|k: int| 0 <= k < sb implies #[trigger] t[h + 1 + k] == code_symbols(position(ss, state) as nat, sbn)[k] by {
        assert(t[h + 1 + k] == e[h + 1 + k]);
    }
    assert(bits_between(t, q + 1, q + 1 + sb)) by {
        assert forall|k: int| q + 1 <= k < q + 1 + sb implies is_bit(#[trigger] t[k]) by {
            assert(t[q + 1 + (k - q - 1)] == code_symbols(rule_state(rules[r]), sbn)[k - q - 1]);
        }
    }
    assert(bits_between(t, h + 1, h + 1 + sb)) by {
        assert forall|k: int| h + 1 <= k < h + 1 + sb implies is_bit(#[trigger] t[k]) by {
            assert(t[k] == e[k]);
        }
    }
    assert(t[q + 1 + sb] == e[q + (1 + sb)]);
    assert(e[q + (1 + sb)] == v[1 + sb]);
    assert(rule_text_between(t, q + 2 + sb, h)) by {
        assert forall|k: int| q + 2 + sb <= k < h implies is_rule_text(#[trigger] t[k]) by {
            assert(t[k] == e[k]);
        }
    }
    assert(t[h + 1 + sb] == e[h + 1 + sb]);
    if r > 0 {
        assert(e[bb + (o - 1)] == rs[o - 1]);
    }
}

/// The rule search, from rule `j - 1` leftward: in `MarkRule` on the last
/// symbol of the first `j` rules, with the encoding unchanged, the machine
/// passes over every rule whose state is not the current one and stops on
/// rule `m`, the last one before `j` that is for the current state, with
/// that rule's state and the current state marked, in `StMatchCleanup`.
pub proof fn lemma_search_from<Spec: TuringMachineSpec>(
    u: &MyUtmSpec,
    g: &Spec,
    rules: Seq<RuleView>,
    state: Spec::State,
    tape: Seq<Spec::Symbol>,
    m: int,
    j: int,
)
    requires
        is_utm(u),
        0 <= m < j <= rules.len(),
        rule_state(rules[m]) == position(g.spec_states(), state),
        forall|k: int| m < k < j ==> rule_state(#[trigger] rules[k]) != position(g.spec_states(), state),
        forall|k: int| 0 <= k < rules.len() ==> rule_state(#[trigger] rules[k]) < two_pow(spec_num_bits(g.spec_states().len())),
        position(g.spec_states(), state) < two_pow(spec_num_bits(g.spec_states().len())),
    ensures
        ({
            let e = encode_spec(g, rules, state, tape);
            let sb = spec_num_bits(g.spec_states().len());
            let yb = spec_num_bits(g.spec_symbols().len());
            let h = rules_end(g, rules) as int;
            let q = rule_start(g, rules, m);
            reaches(
                u,
                TmConfig {
                    state: State::MarkRule,
                    pos: (rules_begin(g) - 1 + serialize_rules_view(rules.take(j), sb, yb).len()) as nat,
                    tape: e,
                },
                TmConfig {
                    state: State::StMatchCleanup,
                    pos: (q + 2 + sb) as nat,
                    tape: marked_pair(e.update(q, Symbol::Star), q + 1, h + 1, sb as int),
                },
            )
        }),
    decreases j,
{
    let ss = g.spec_states();
    let sbn = spec_num_bits(ss.len());
    let yb = spec_num_bits(g.spec_symbols().len());
    let sb = sbn as int;
    let e = encode_spec(g, rules, state, tape);
    let bb = rules_begin(g) as int;
    let h = rules_end(g, rules) as int;
    let cur = position(ss, state) as nat;
    let r = j - 1;
    assert(rules.take(j) == rules.take(r + 1));
    lemma_rule_marked(u, g, rules, state, tape, r);
    let q = rule_start(g, rules, r);
    let t = e.update(q, Symbol::Star);
    let c0 = TmConfig {
        state: State::MarkRule,
        pos: (bb - 1 + serialize_rules_view(rules.take(j), sbn, yb).len()) as nat,
        tape: e,
    };
    let c2 = TmConfig { state: State::CmpStRead, pos: (q + 1) as nat, tape: t };
    assert(marked_pair(t, q + 1, h + 1, 0) =~= t);
    let target = TmConfig {
        state: State::StMatchCleanup,
        pos: (rule_start(g, rules, m) + 2 + sb) as nat,
        tape: marked_pair(e.update(rule_start(g, rules, m), Symbol::Star), rule_start(g, rules, m) + 1, h + 1, sb),
    };
    if r == m {
        assert forall|k: int| 0 <= k < sb implies #[trigger] t[q + 1 + k] == t[h + 1 + k] by {
            assert(t[q + 1 + k] == code_symbols(rule_state(rules[r]), sbn)[k]);
            assert(t[h + 1 + k] == code_symbols(cur, sbn)[k]);
        }
        lemma_state_bits_match(u, t, q, h, sb, 0, State::CmpStRead);
        lemma_reaches_trans(u, c0, c2, target);
    } else {
        assert(exists|k: int| 0 <= k < sb && #[trigger] t[q + 1 + k] != t[h + 1 + k]) by {
            if forall|k: int| 0 <= k < sb ==> #[trigger] t[q + 1 + k] == t[h + 1 + k] {
                assert forall|k: int| 0 <= k < sbn implies #[trigger] code_symbols(rule_state(rules[r]), sbn)[k]
                    == code_symbols(cur, sbn)[k] by {
                    assert(t[q + 1 + k] == t[h + 1 + k]);
                    assert(t[q + 1 + k] == code_symbols(rule_state(rules[r]), sbn)[k]);
                    assert(t[h + 1 + k] == code_symbols(cur, sbn)[k]);
                }
                lemma_code_symbols_injective(rule_state(rules[r]), cur, sbn);
            }
        }
        lemma_state_bits_differ(u, t, q, h, sb, 0, State::CmpStRead);
        assert(t.update(q, Symbol::Dot) =~= e);
        let c3 = TmConfig { state: State::MarkRule, pos: (q - 1) as nat, tape: e };
        lemma_reaches_trans(u, c0, c2, c3);
        lemma_mark_rule_rules(u);
        let c4 = TmConfig { state: State::MarkRule, pos: (q - 2) as nat, tape: e };
        assert(e.update(q - 1, e[q - 1]) =~= e);
        assert(step_config(u, c3) == Some(c4));
        lemma_reaches_step(u, c3, c4);
        lemma_reaches_trans(u, c0, c3, c4);
        lemma_search_from(u, g, rules, state, tape, m, r);
        lemma_reaches_trans(u, c0, c4, target);
    }
}

/// The rule search of a simulated step: from `$` in `Init`, the universal
/// machine searches the rules from the right, passes over each rule for
/// another state, and stops on rule `m`, the last rule for the current
/// state, with that rule's state and the current state marked bit by bit,
/// in `StMatchCleanup` just past the rule's state.
pub proof fn lemma_search_finds_rule<Spec: TuringMachineSpec>(
    u: &MyUtmSpec,
    g: &Spec,
    rules: Seq<RuleView>,
    state: Spec::State,
    tape: Seq<Spec::Symbol>,
    m: int,
)
    requires
        is_utm(u),
        0 <= m < rules.len(),
        rule_state(rules[m]) == position(g.spec_states(), state),
        forall|k: int| m < k < rules.len() ==> rule_state(#[trigger] rules[k]) != position(g.spec_states(), state),
        forall|k: int| 0 <= k < rules.len() ==> rule_state(#[trigger] rules[k]) < two_pow(spec_num_bits(g.spec_states().len())),
        position(g.spec_states(), state) < two_pow(spec_num_bits(g.spec_states().len())),
    ensures
        ({
            let e = encode_spec(g, rules, state, tape);
            let sb = spec_num_bits(g.spec_states().len());
            let h = rules_end(g, rules) as int;
            let q = rule_start(g, rules, m);
            reaches(
                u,
                TmConfig { state: State::Init, pos: 0, tape: e },
                TmConfig {
                    state: State::StMatchCleanup,
                    pos: (q + 2 + sb) as nat,
                    tape: marked_pair(e.update(q, Symbol::Star), q + 1, h + 1, sb as int),
                },
            )
        }),
{
    let sbn = spec_num_bits(g.spec_states().len());
    let yb = spec_num_bits(g.spec_symbols().len());
    let e = encode_spec(g, rules, state, tape);
    let h = rules_end(g, rules) as int;
    lemma_init_phase(u, g, rules, state, tape);
    lemma_encoding_layout(g, rules, state, tape);
    assert(rules.take(rules.len() as int) =~= rules);
    let c0 = TmConfig { state: State::Init, pos: 0nat, tape: e };
    let c1 = TmConfig { state: State::MarkRule, pos: (h - 1) as nat, tape: e };
    lemma_reaches_steps(u, c0, (h + 1) as nat, c1);
    lemma_search_from(u, g, rules, state, tape, m, rules.len() as int);
    let q = rule_start(g, rules, m);
    lemma_reaches_trans(
        u,
        c0,
        c1,
        TmConfig {
            state: State::StMatchCleanup,
            pos: (q + 2 + sbn) as nat,
            tape: marked_pair(e.update(q, Symbol::Star), q + 1, h + 1, sbn as int),
        },
    );
}

/// A state that moves left over bits and turns marked bits back into bits
/// unmarks a whole stretch of bits and marked bits.
pub proof fn lemma_restore_left(u: &MyUtmSpec, c: TmConfig<State, Symbol>, to: nat)
    requires
        to <= c.pos < c.tape.len(),
        forall|k: int| to < k <= c.pos ==> is_bit(#[trigger] c.tape[k]) || is_marked(c.tape[k]),
        u.spec_transition(c.state, Symbol::Zero) == Some((c.state, Symbol::Zero, Dir::Left)),
        u.spec_transition(c.state, Symbol::One) == Some((c.state, Symbol::One, Dir::Left)),
        u.spec_transition(c.state, Symbol::X) == Some((c.state, Symbol::Zero, Dir::Left)),
        u.spec_transition(c.state, Symbol::Y) == Some((c.state, Symbol::One, Dir::Left)),
    ensures
        steps(u, c, (c.pos - to) as nat) == Some(
            TmConfig { state: c.state, pos: to, tape: unmarked_range(c.tape, (to + 1) as int, (c.pos + 1) as int) },
        ),
    decreases c.pos - to,
{
    if to < c.pos {
        let t2 = c.tape.update(c.pos as int, unmark(c.tape[c.pos as int]));
        let c2 = TmConfig { state: c.state, pos: (c.pos - 1) as nat, tape: t2 };
        assert(step_config(u, c) == Some(c2));
        lemma_restore_left(u, c2, to);
        assert(unmarked_range(t2, (to + 1) as int, c.pos as int) =~= unmarked_range(c.tape, (to + 1) as int, (c.pos + 1) as int));
    } else {
        assert(unmarked_range(c.tape, (to + 1) as int, (c.pos + 1) as int) =~= c.tape);
    }
}

/// The rules that clean up after a matching state and move on to the
/// rule's symbol.
pub proof fn lemma_state_cleanup_rules(u: &MyUtmSpec)
    requires
        is_utm(u),
    ensures
        forall|y: Symbol| is_bit(y) ==> #[trigger] u.spec_transition(State::StMatchCleanup, y) == Some(
            (State::StmGoLeft, y, Dir::Left),
        ),
        u.spec_transition(State::StmGoLeft, Symbol::Pipe) == Some((State::StmRestoreRule, Symbol::Pipe, Dir::Left)),
        u.spec_transition(State::StmGoLeft, Symbol::Comma) == Some((State::StmRestoreRule, Symbol::Comma, Dir::Left)),
        u.spec_transition(State::StmRestoreRule, Symbol::Zero) == Some((State::StmRestoreRule, Symbol::Zero, Dir::Left)),
        u.spec_transition(State::StmRestoreRule, Symbol::One) == Some((State::StmRestoreRule, Symbol::One, Dir::Left)),
        u.spec_transition(State::StmRestoreRule, Symbol::X) == Some((State::StmRestoreRule, Symbol::Zero, Dir::Left)),
        u.spec_transition(State::StmRestoreRule, Symbol::Y) == Some((State::StmRestoreRule, Symbol::One, Dir::Left)),
        u.spec_transition(State::StmRestoreRule, Symbol::Star) == Some((State::StmGotoState, Symbol::Star, Dir::Right)),
        forall|y: Symbol|
            (is_rule_text(y) || is_marked(y) || y == Symbol::Gt) ==> #[trigger] u.spec_transition(State::StmGotoState, y)
                == Some((State::StmGotoState, y, Dir::Right)),
        u.spec_transition(State::StmGotoState, Symbol::Hash) == Some((State::StmRestoreState, Symbol::Hash, Dir::Right)),
        u.spec_transition(State::StmRestoreState, Symbol::Zero) == Some((State::StmRestoreState, Symbol::Zero, Dir::Right)),
        u.spec_transition(State::StmRestoreState, Symbol::One) == Some((State::StmRestoreState, Symbol::One, Dir::Right)),
        u.spec_transition(State::StmRestoreState, Symbol::X) == Some((State::StmRestoreState, Symbol::Zero, Dir::Right)),
        u.spec_transition(State::StmRestoreState, Symbol::Y) == Some((State::StmRestoreState, Symbol::One, Dir::Right)),
        u.spec_transition(State::StmRestoreState, Symbol::Hash) == Some((State::StmBackToRule, Symbol::Hash, Dir::Left)),
        forall|y: Symbol|
            (is_rule_text(y) || is_marked(y) || y == Symbol::Hash || y == Symbol::Caret || y == Symbol::Gt)
                ==> #[trigger] u.spec_transition(State::StmBackToRule, y) == Some((State::StmBackToRule, y, Dir::Left)),
        u.spec_transition(State::StmBackToRule, Symbol::Star) == Some((State::SymSkipState, Symbol::Star, Dir::Right)),
        forall|y: Symbol| is_bit(y) ==> #[trigger] u.spec_transition(State::SymSkipState, y) == Some(
            (State::SymSkipState, y, Dir::Right),
        ),
        u.spec_transition(State::SymSkipState, Symbol::Pipe) == Some((State::CmpSymRead, Symbol::Pipe, Dir::Right)),
        u.spec_transition(State::SymSkipState, Symbol::Comma) == Some((State::CmpSymRead, Symbol::Caret, Dir::Right)),
{
    reveal_with_fuel(listed, 16);
    lemma_utm_lookup(State::StmGoLeft, Symbol::Pipe);
    lemma_utm_lookup(State::StmGoLeft, Symbol::Comma);
    lemma_utm_lookup(State::StmRestoreRule, Symbol::Zero);
    lemma_utm_lookup(State::StmRestoreRule, Symbol::One);
    lemma_utm_lookup(State::StmRestoreRule, Symbol::X);
    lemma_utm_lookup(State::StmRestoreRule, Symbol::Y);
    lemma_utm_lookup(State::StmRestoreRule, Symbol::Star);
    lemma_utm_lookup(State::StmGotoState, Symbol::Hash);
    lemma_utm_lookup(State::StmRestoreState, Symbol::Zero);
    lemma_utm_lookup(State::StmRestoreState, Symbol::One);
    lemma_utm_lookup(State::StmRestoreState, Symbol::X);
    lemma_utm_lookup(State::StmRestoreState, Symbol::Y);
    lemma_utm_lookup(State::StmRestoreState, Symbol::Hash);
    lemma_utm_lookup(State::StmBackToRule, Symbol::Star);
    lemma_utm_lookup(State::SymSkipState, Symbol::Pipe);
    lemma_utm_lookup(State::SymSkipState, Symbol::Comma);
    assert forall|y: Symbol| is_bit(y) implies #[trigger] u.spec_transition(State::StMatchCleanup, y) == Some(
        (State::StmGoLeft, y, Dir::Left),
    ) by {
        lemma_utm_lookup(State::StMatchCleanup, y);
    }
    assert forall|y: Symbol|
        (is_rule_text(y) || is_marked(y) || y == Symbol::Gt) implies #[trigger] u.spec_transition(State::StmGotoState, y)
            == Some((State::StmGotoState, y, Dir::Right)) by {
        lemma_utm_lookup(State::StmGotoState, y);
    }
    assert forall|y: Symbol|
        (is_rule_text(y) || is_marked(y) || y == Symbol::Hash || y == Symbol::Caret || y == Symbol::Gt)
            implies #[trigger] u.spec_transition(State::StmBackToRule, y) == Some((State::StmBackToRule, y, Dir::Left)) by {
        lemma_utm_lookup(State::StmBackToRule, y);
    }
    assert forall|y: Symbol| is_bit(y) implies #[trigger] u.spec_transition(State::SymSkipState, y) == Some(
        (State::SymSkipState, y, Dir::Right),
    ) by {
        lemma_utm_lookup(State::SymSkipState, y);
    }
}

/// After a matching state: the machine unmarks the rule's state and the
/// current state, and enters `CmpSymRead` just past the rule's state; a
/// noop group's `,` there becomes the `^` that marks its first
/// alternative.
#[verifier::rlimit(40)]
pub proof fn lemma_state_cleanup(u: &MyUtmSpec, t: Seq<Symbol>, q: int, h: int, sb: int)
    requires
        is_utm(u),
        state_compare_layout(t, q, h, sb),
        h + 1 + sb < t.len(),
        t[h + 1 + sb] == Symbol::Hash,
        q + 2 + sb < h,
        0 <= sb,
        is_bit(t[q + 2 + sb]),
    ensures
        reaches(
            u,
            TmConfig { state: State::StMatchCleanup, pos: (q + 2 + sb) as nat, tape: marked_pair(t, q + 1, h + 1, sb) },
            TmConfig {
                state: State::CmpSymRead,
                pos: (q + 2 + sb) as nat,
                tape: if t[q + 1 + sb] == Symbol::Pipe {
                    t
                } else {
                    t.update(q + 1 + sb, Symbol::Caret)
                },
            },
        ),
{
    lemma_state_cleanup_rules(u);
    let tt = marked_pair(t, q + 1, h + 1, sb);
    let c0 = TmConfig { state: State::StMatchCleanup, pos: (q + 2 + sb) as nat, tape: tt };
    assert(tt[q + 2 + sb] == t[q + 2 + sb]);
    assert(tt.update(q + 2 + sb, tt[q + 2 + sb]) =~= tt);
    let c1 = TmConfig { state: State::StmGoLeft, pos: (q + 1 + sb) as nat, tape: tt };
    assert(step_config(u, c0) == Some(c1));
    lemma_reaches_step(u, c0, c1);
    assert(tt[q + 1 + sb] == t[q + 1 + sb]);
    assert(tt.update(q + 1 + sb, tt[q + 1 + sb]) =~= tt);
    let c2 = TmConfig { state: State::StmRestoreRule, pos: (q + sb) as nat, tape: tt };
    assert(step_config(u, c1) == Some(c2));
    lemma_reaches_step(u, c1, c2);
    lemma_reaches_trans(u, c0, c1, c2);
    // Unmark the rule's state, moving left to the `*`.
    assert forall|k: int| q < k <= q + sb implies is_bit(#[trigger] tt[k]) || is_marked(tt[k]) by {
        assert(is_bit(t[k]));
    }
    lemma_restore_left(u, c2, q as nat);
    let t1 = unmarked_range(tt, q + 1, q + sb + 1);
    let c3 = TmConfig { state: State::StmRestoreRule, pos: q as nat, tape: t1 };
    lemma_reaches_steps(u, c2, sb as nat, c3);
    lemma_reaches_trans(u, c0, c2, c3);
    assert(t1[q] == Symbol::Star);
    assert(t1.update(q, t1[q]) =~= t1);
    let c4 = TmConfig { state: State::StmGotoState, pos: (q + 1) as nat, tape: t1 };
    assert(step_config(u, c3) == Some(c4));
    lemma_reaches_step(u, c3, c4);
    lemma_reaches_trans(u, c0, c3, c4);
    // Right to the `#` before the current state.
    assert forall|k: int| q + 1 <= k < h implies #[trigger] u.spec_transition(State::StmGotoState, t1[k]) == Some(
        (State::StmGotoState, t1[k], Dir::Right),
    ) by {
        if k < q + 1 + sb {
            assert(is_bit(t[k]));
            assert(t1[k] == unmark(mark(t[k])));
        } else if k == q + 1 + sb {
            assert(t1[k] == t[k]);
        } else {
            assert(t1[k] == t[k]);
            assert(is_rule_text(t[k]));
        }
    }
    lemma_scan_right(u, c4, h as nat);
    let c5 = TmConfig { state: State::StmGotoState, pos: h as nat, tape: t1 };
    lemma_reaches_steps(u, c4, (h - q - 1) as nat, c5);
    lemma_reaches_trans(u, c0, c4, c5);
    assert(t1[h] == Symbol::Hash);
    assert(t1.update(h, t1[h]) =~= t1);
    let c6 = TmConfig { state: State::StmRestoreState, pos: (h + 1) as nat, tape: t1 };
    assert(step_config(u, c5) == Some(c6));
    lemma_reaches_step(u, c5, c6);
    lemma_reaches_trans(u, c0, c5, c6);
    // Unmark the current state.
    assert forall|k: int| h + 1 <= k < h + 1 + sb implies is_bit(#[trigger] t1[k]) || is_marked(t1[k]) by {
        assert(is_bit(t[k]));
    }
    lemma_restore_right(u, c6, (h + 1 + sb) as nat);
    let t2 = unmarked_range(t1, h + 1, h + 1 + sb);
    assert forall|k: int| 0 <= k < t.len() implies #[trigger] t2[k] == t[k] by {
        if q + 1 <= k < q + 1 + sb || h + 1 <= k < h + 1 + sb {
            assert(is_bit(t[k]));
        }
    }
    assert(t2 =~= t);
    let c7 = TmConfig { state: State::StmRestoreState, pos: (h + 1 + sb) as nat, tape: t };
    lemma_reaches_steps(u, c6, sb as nat, c7);
    lemma_reaches_trans(u, c0, c6, c7);
    assert(t.update(h + 1 + sb, t[h + 1 + sb]) =~= t);
    let c8 = TmConfig { state: State::StmBackToRule, pos: (h + sb) as nat, tape: t };
    assert(step_config(u, c7) == Some(c8));
    lemma_reaches_step(u, c7, c8);
    lemma_reaches_trans(u, c0, c7, c8);
    // Back to the `*`.
    assert forall|k: int| q < k <= h + sb implies #[trigger] u.spec_transition(State::StmBackToRule, t[k]) == Some(
        (State::StmBackToRule, t[k], Dir::Left),
    ) by {
        if k < q + 1 + sb {
            assert(is_bit(t[k]));
        } else if k == q + 1 + sb {
        } else if k < h {
            assert(is_rule_text(t[k]));
        } else if k == h {
        } else {
            assert(is_bit(t[k]));
        }
    }
    lemma_scan_left(u, c8, q as nat);
    let c9 = TmConfig { state: State::StmBackToRule, pos: q as nat, tape: t };
    lemma_reaches_steps(u, c8, (h + sb - q) as nat, c9);
    lemma_reaches_trans(u, c0, c8, c9);
    assert(t.update(q, t[q]) =~= t);
    let c10 = TmConfig { state: State::SymSkipState, pos: (q + 1) as nat, tape: t };
    assert(step_config(u, c9) == Some(c10));
    lemma_reaches_step(u, c9, c10);
    lemma_reaches_trans(u, c0, c9, c10);
    // Over the rule's state.
    assert forall|k: int| q + 1 <= k < q + 1 + sb implies #[trigger] u.spec_transition(State::SymSkipState, t[k]) == Some(
        (State::SymSkipState, t[k], Dir::Right),
    ) by {
        assert(is_bit(t[k]));
    }
    lemma_scan_right(u, c10, (q + 1 + sb) as nat);
    let c11 = TmConfig { state: State::SymSkipState, pos: (q + 1 + sb) as nat, tape: t };
    lemma_reaches_steps(u, c10, sb as nat, c11);
    lemma_reaches_trans(u, c0, c10, c11);
    let tf = if t[q + 1 + sb] == Symbol::Pipe {
        t
    } else {
        t.update(q + 1 + sb, Symbol::Caret)
    };
    if t[q + 1 + sb] == Symbol::Pipe {
        assert(t.update(q + 1 + sb, t[q + 1 + sb]) =~= t);
    }
    let c12 = TmConfig { state: State::CmpSymRead, pos: (q + 2 + sb) as nat, tape: tf };
    assert(step_config(u, c11) == Some(c12));
    lemma_reaches_step(u, c11, c12);
    lemma_reaches_trans(u, c0, c11, c12);
}

/// A rule that can be taken: a noop group names at least one symbol.
pub open spec fn rule_nonempty(r: RuleView) -> bool {
    match r {
        RuleView::Single { .. } => true,
        RuleView::NoopGroup { syms, .. } => syms.len() > 0,
    }
}

proof fn lemma_alternatives_second(syms: Seq<nat>, w: nat)
    requires
        syms.len() > 0,
        w >= 1,
    ensures
        alternatives(syms, w).len() > 1,
        is_bit(alternatives(syms, w)[1]),
    decreases syms.len(),
{
    let a = alternatives(syms.drop_last(), w);
    crate::binary::lemma_binary_len(syms.last(), w);
    lemma_code_bits(syms.last(), w);
    if syms.len() > 1 {
        lemma_alternatives_second(syms.drop_last(), w);
        assert(alternatives(syms, w)[1] == a[1]);
    } else {
        assert(a.len() == 0);
        assert(alternatives(syms, w)[1] == code_symbols(syms.last(), w)[0]);
    }
}

/// After a rule's state and its `|` or `,` comes a bit: the first bit of
/// its symbol, or of its first alternative.
proof fn lemma_serialize_view_after_state(r: RuleView, sb: nat, yb: nat)
    requires
        yb >= 1,
        rule_nonempty(r),
    ensures
        serialize_view(r, sb, yb).len() > 2 + sb,
        is_bit(serialize_view(r, sb, yb)[(2 + sb) as int]),
{
    crate::binary::lemma_binary_len(rule_state(r), sb);
    let v = serialize_view(r, sb, yb);
    let d = seq![Symbol::Dot];
    let cs = code_symbols(rule_state(r), sb);
    match r {
        RuleView::Single { state, sym, new_state, new_sym, dir } => {
            crate::binary::lemma_binary_len(sym, yb);
            lemma_code_bits(sym, yb);
            let rest = code_symbols(sym, yb) + seq![Symbol::Pipe] + code_symbols(new_state, sb) + seq![Symbol::Pipe]
                + code_symbols(new_sym, yb) + seq![Symbol::Pipe, dir_symbol(dir)];
            assert(v =~= d + cs + seq![Symbol::Pipe] + rest);
            assert(v[(2 + sb) as int] == rest[0]);
            assert(rest[0] == code_symbols(sym, yb)[0]);
        },
        RuleView::NoopGroup { state, syms, dir } => {
            lemma_alternatives_second(syms, yb);
            let rest = alternatives(syms, yb) + seq![Symbol::Pipe, dir_symbol(dir)];
            assert(v =~= d + cs + rest);
            assert(v[(2 + sb) as int] == rest[1]);
        },
    }
}

/// The first part of a simulated step: from `$` in `Init`, the universal
/// machine searches the rules from the right, passes over each rule for
/// another state, finds rule `m`, the last rule for the current state,
/// leaves the tape as it was but for the `*` on that rule (and, for a noop
/// group, the `^` on its first alternative), and enters `CmpSymRead` on
/// the rule's symbol.
#[verifier::rlimit(60)]
pub proof fn lemma_step_finds_rule<Spec: TuringMachineSpec>(
    u: &MyUtmSpec,
    g: &Spec,
    rules: Seq<RuleView>,
    state: Spec::State,
    tape: Seq<Spec::Symbol>,
    m: int,
)
    requires
        is_utm(u),
        0 <= m < rules.len(),
        rule_nonempty(rules[m]),
        rule_state(rules[m]) == position(g.spec_states(), state),
        forall|k: int| m < k < rules.len() ==> rule_state(#[trigger] rules[k]) != position(g.spec_states(), state),
        forall|k: int| 0 <= k < rules.len() ==> rule_state(#[trigger] rules[k]) < two_pow(spec_num_bits(g.spec_states().len())),
        position(g.spec_states(), state) < two_pow(spec_num_bits(g.spec_states().len())),
    ensures
        ({
            let e = encode_spec(g, rules, state, tape);
            let sb = spec_num_bits(g.spec_states().len()) as int;
            let q = rule_start(g, rules, m);
            let t = e.update(q, Symbol::Star);
            reaches(
                u,
                TmConfig { state: State::Init, pos: 0, tape: e },
                TmConfig {
                    state: State::CmpSymRead,
                    pos: (q + 2 + sb) as nat,
                    tape: if rules[m] is Single {
                        t
                    } else {
                        t.update(q + 1 + sb, Symbol::Caret)
                    },
                },
            )
        }),
{
    let sbn = spec_num_bits(g.spec_states().len());
    let yb = spec_num_bits(g.spec_symbols().len());
    let sb = sbn as int;
    let e = encode_spec(g, rules, state, tape);
    let h = rules_end(g, rules) as int;
    let q = rule_start(g, rules, m);
    let t = e.update(q, Symbol::Star);
    lemma_search_finds_rule(u, g, rules, state, tape, m);
    lemma_rule_marked(u, g, rules, state, tape, m);
    lemma_rule_in_section(rules, m, sbn, yb);
    lemma_encoding_layout(g, rules, state, tape);
    crate::binary::lemma_num_bits(g.spec_symbols().len());
    lemma_serialize_view_after_state(rules[m], sbn, yb);
    lemma_serialize_view_head(rules[m], sbn, yb);
    let v = serialize_view(rules[m], sbn, yb);
    let o = rule_offset(rules, m, sbn, yb);
    let rs = serialize_rules_view(rules, sbn, yb);
    assert(q == rules_begin(g) + o);
    assert(t[q + 2 + sb] == e[rules_begin(g) + (o + 2 + sb)]);
    assert(e[rules_begin(g) + (o + 2 + sb)] == rs[o + (2 + sb)]);
    assert(rs[o + (2 + sb)] == v[2 + sb]);
    assert(t[q + 1 + sb] == e[rules_begin(g) + (o + 1 + sb)]);
    assert(e[rules_begin(g) + (o + 1 + sb)] == rs[o + (1 + sb)]);
    assert(rs[o + (1 + sb)] == v[1 + sb]);
    assert(q + 2 + sb < h);
    lemma_state_cleanup(u, t, q, h, sb);
    let tf = if t[q + 1 + sb] == Symbol::Pipe {
        t
    } else {
        t.update(q + 1 + sb, Symbol::Caret)
    };
    assert((rules[m] is Single) == (t[q + 1 + sb] == Symbol::Pipe)) by {
        let d = seq![Symbol::Dot];
        let cs = code_symbols(rule_state(rules[m]), sbn);
        crate::binary::lemma_binary_len(rule_state(rules[m]), sbn);
        match rules[m] {
            RuleView::Single { state, sym, new_state, new_sym, dir } => {
                let rest = seq![Symbol::Pipe] + code_symbols(sym, yb) + seq![Symbol::Pipe] + code_symbols(new_state, sbn)
                    + seq![Symbol::Pipe] + code_symbols(new_sym, yb) + seq![Symbol::Pipe, dir_symbol(dir)];
                assert(v =~= d + cs + rest);
                assert(v[1 + sb] == rest[0]);
            },
            RuleView::NoopGroup { state, syms, dir } => {
                lemma_alternatives_first(syms, yb);
                let rest = alternatives(syms, yb) + seq![Symbol::Pipe, dir_symbol(dir)];
                assert(v =~= d + cs + rest);
                assert(v[1 + sb] == rest[0]);
            },
        }
    }
    lemma_reaches_trans(
        u,
        TmConfig { state: State::Init, pos: 0, tape: e },
        TmConfig { state: State::StMatchCleanup, pos: (q + 2 + sb) as nat, tape: marked_pair(t, q + 1, h + 1, sb) },
        TmConfig { state: State::CmpSymRead, pos: (q + 2 + sb) as nat, tape: tf },
    );
}

/// The layout in which a single rule marked with `*` at `q`, its state
/// already matched, compares its symbol with the head's cell: the rule's
/// state, `|`, the rule's symbol bits from `p`, `|`, rule text up to the
/// `#` at `h`, the current state, `#` at `hc`, then `^` and the head cell's
/// bits.
pub open spec fn symbol_compare_layout(t: Seq<Symbol>, q: int, h: int, sb: int, yb: int) -> bool {
    let p = q + 2 + sb;
    let hc = h + 1 + sb;
    &&& 0 <= q
    &&& 0 <= sb
    &&& 0 <= yb
    &&& p + yb < h
    &&& hc + 2 + yb <= t.len()
    &&& t[q] == Symbol::Star
    &&& bits_between(t, q + 1, q + 1 + sb)
    &&& t[q + 1 + sb] == Symbol::Pipe
    &&& bits_between(t, p, p + yb)
    &&& t[p + yb] == Symbol::Pipe
    &&& rule_text_between(t, p + yb + 1, h)
    &&& t[h] == Symbol::Hash
    &&& bits_between(t, h + 1, hc)
    &&& t[hc] == Symbol::Hash
    &&& t[hc + 1] == Symbol::Caret
    &&& bits_between(t, hc + 2, hc + 2 + yb)
}

/// The rules that compare a rule's symbol with the head's cell.
pub proof fn lemma_compare_symbol_rules(u: &MyUtmSpec)
    requires
        is_utm(u),
    ensures
        u.spec_transition(State::CmpSymRead, Symbol::Zero) == Some((State::CmpSymC0, Symbol::X, Dir::Right)),
        u.spec_transition(State::CmpSymRead, Symbol::One) == Some((State::CmpSymC1, Symbol::Y, Dir::Right)),
        u.spec_transition(State::CmpSymRead, Symbol::Pipe) == Some((State::SymMatchCleanup, Symbol::Pipe, Dir::Right)),
        u.spec_transition(State::CmpSymNb2, Symbol::Zero) == Some((State::CmpSymC0, Symbol::X, Dir::Right)),
        u.spec_transition(State::CmpSymNb2, Symbol::One) == Some((State::CmpSymC1, Symbol::Y, Dir::Right)),
        u.spec_transition(State::CmpSymNb2, Symbol::Pipe) == Some((State::SymMatchCleanup, Symbol::Pipe, Dir::Right)),
        forall|y: Symbol| is_marked(y) ==> #[trigger] u.spec_transition(State::CmpSymNb2, y) == Some(
            (State::CmpSymNb2, y, Dir::Right),
        ),
        forall|y: Symbol| (is_rule_text(y) || is_marked(y)) ==> #[trigger] u.spec_transition(State::CmpSymC0, y) == Some(
            (State::CmpSymC0, y, Dir::Right),
        ),
        forall|y: Symbol| (is_rule_text(y) || is_marked(y)) ==> #[trigger] u.spec_transition(State::CmpSymC1, y) == Some(
            (State::CmpSymC1, y, Dir::Right),
        ),
        u.spec_transition(State::CmpSymC0, Symbol::Hash) == Some((State::CmpSymC0S1, Symbol::Hash, Dir::Right)),
        u.spec_transition(State::CmpSymC1, Symbol::Hash) == Some((State::CmpSymC1S1, Symbol::Hash, Dir::Right)),
        forall|y: Symbol| is_bit(y) ==> #[trigger] u.spec_transition(State::CmpSymC0S1, y) == Some(
            (State::CmpSymC0S1, y, Dir::Right),
        ),
        forall|y: Symbol| is_bit(y) ==> #[trigger] u.spec_transition(State::CmpSymC1S1, y) == Some(
            (State::CmpSymC1S1, y, Dir::Right),
        ),
        u.spec_transition(State::CmpSymC0S1, Symbol::Hash) == Some((State::CmpSymC0Fh, Symbol::Hash, Dir::Right)),
        u.spec_transition(State::CmpSymC1S1, Symbol::Hash) == Some((State::CmpSymC1Fh, Symbol::Hash, Dir::Right)),
        u.spec_transition(State::CmpSymC0Fh, Symbol::Caret) == Some((State::CmpSymC0Fb, Symbol::Caret, Dir::Right)),
        u.spec_transition(State::CmpSymC1Fh, Symbol::Caret) == Some((State::CmpSymC1Fb, Symbol::Caret, Dir::Right)),
        forall|y: Symbol| is_marked(y) ==> #[trigger] u.spec_transition(State::CmpSymC0Fb, y) == Some(
            (State::CmpSymC0Fb, y, Dir::Right),
        ),
        forall|y: Symbol| is_marked(y) ==> #[trigger] u.spec_transition(State::CmpSymC1Fb, y) == Some(
            (State::CmpSymC1Fb, y, Dir::Right),
        ),
        u.spec_transition(State::CmpSymC0Fb, Symbol::Zero) == Some((State::CmpSymOk, Symbol::X, Dir::Left)),
        u.spec_transition(State::CmpSymC0Fb, Symbol::One) == Some((State::CmpSymFail, Symbol::Y, Dir::Left)),
        u.spec_transition(State::CmpSymC1Fb, Symbol::One) == Some((State::CmpSymOk, Symbol::Y, Dir::Left)),
        u.spec_transition(State::CmpSymC1Fb, Symbol::Zero) == Some((State::CmpSymFail, Symbol::X, Dir::Left)),
        forall|y: Symbol|
            (is_rule_text(y) || is_marked(y) || y == Symbol::Hash || y == Symbol::Caret) ==> #[trigger] u.spec_transition(
                State::CmpSymOk,
                y,
            ) == Some((State::CmpSymOk, y, Dir::Left)),
        u.spec_transition(State::CmpSymOk, Symbol::Star) == Some((State::CmpSymNextbit, Symbol::Star, Dir::Right)),
        forall|y: Symbol| is_bit(y) ==> #[trigger] u.spec_transition(State::CmpSymNextbit, y) == Some(
            (State::CmpSymNextbit, y, Dir::Right),
        ),
        u.spec_transition(State::CmpSymNextbit, Symbol::Pipe) == Some((State::CmpSymNb2, Symbol::Pipe, Dir::Right)),
{
    reveal_with_fuel(listed, 16);
    lemma_utm_lookup(State::CmpSymRead, Symbol::Zero);
    lemma_utm_lookup(State::CmpSymRead, Symbol::One);
    lemma_utm_lookup(State::CmpSymRead, Symbol::Pipe);
    lemma_utm_lookup(State::CmpSymNb2, Symbol::Zero);
    lemma_utm_lookup(State::CmpSymNb2, Symbol::One);
    lemma_utm_lookup(State::CmpSymNb2, Symbol::Pipe);
    lemma_utm_lookup(State::CmpSymC0, Symbol::Hash);
    lemma_utm_lookup(State::CmpSymC1, Symbol::Hash);
    lemma_utm_lookup(State::CmpSymC0S1, Symbol::Hash);
    lemma_utm_lookup(State::CmpSymC1S1, Symbol::Hash);
    lemma_utm_lookup(State::CmpSymC0Fh, Symbol::Caret);
    lemma_utm_lookup(State::CmpSymC1Fh, Symbol::Caret);
    lemma_utm_lookup(State::CmpSymC0Fb, Symbol::Zero);
    lemma_utm_lookup(State::CmpSymC0Fb, Symbol::One);
    lemma_utm_lookup(State::CmpSymC1Fb, Symbol::Zero);
    lemma_utm_lookup(State::CmpSymC1Fb, Symbol::One);
    lemma_utm_lookup(State::CmpSymOk, Symbol::Star);
    lemma_utm_lookup(State::CmpSymNextbit, Symbol::Pipe);
    assert forall|y: Symbol| is_marked(y) implies #[trigger] u.spec_transition(State::CmpSymNb2, y) == Some(
        (State::CmpSymNb2, y, Dir::Right),
    ) by {
        lemma_utm_lookup(State::CmpSymNb2, y);
    }
    assert forall|y: Symbol| (is_rule_text(y) || is_marked(y)) implies #[trigger] u.spec_transition(State::CmpSymC0, y)
        == Some((State::CmpSymC0, y, Dir::Right)) by {
        lemma_utm_lookup(State::CmpSymC0, y);
    }
    assert forall|y: Symbol| (is_rule_text(y) || is_marked(y)) implies #[trigger] u.spec_transition(State::CmpSymC1, y)
        == Some((State::CmpSymC1, y, Dir::Right)) by {
        lemma_utm_lookup(State::CmpSymC1, y);
    }
    assert forall|y: Symbol| is_bit(y) implies #[trigger] u.spec_transition(State::CmpSymC0S1, y) == Some(
        (State::CmpSymC0S1, y, Dir::Right),
    ) by {
        lemma_utm_lookup(State::CmpSymC0S1, y);
    }
    assert forall|y: Symbol| is_bit(y) implies #[trigger] u.spec_transition(State::CmpSymC1S1, y) == Some(
        (State::CmpSymC1S1, y, Dir::Right),
    ) by {
        lemma_utm_lookup(State::CmpSymC1S1, y);
    }
    assert forall|y: Symbol| is_marked(y) implies #[trigger] u.spec_transition(State::CmpSymC0Fb, y) == Some(
        (State::CmpSymC0Fb, y, Dir::Right),
    ) by {
        lemma_utm_lookup(State::CmpSymC0Fb, y);
    }
    assert forall|y: Symbol| is_marked(y) implies #[trigger] u.spec_transition(State::CmpSymC1Fb, y) == Some(
        (State::CmpSymC1Fb, y, Dir::Right),
    ) by {
        lemma_utm_lookup(State::CmpSymC1Fb, y);
    }
    assert forall|y: Symbol|
        (is_rule_text(y) || is_marked(y) || y == Symbol::Hash || y == Symbol::Caret) implies #[trigger] u.spec_transition(
            State::CmpSymOk,
            y,
        ) == Some((State::CmpSymOk, y, Dir::Left)) by {
        lemma_utm_lookup(State::CmpSymOk, y);
    }
    assert forall|y: Symbol| is_bit(y) implies #[trigger] u.spec_transition(State::CmpSymNextbit, y) == Some(
        (State::CmpSymNextbit, y, Dir::Right),
    ) by {
        lemma_utm_lookup(State::CmpSymNextbit, y);
    }
}

/// One matching symbol bit of a single rule: from reading bit `i` of the
/// rule's symbol, the machine marks it and the same bit of the head's cell,
/// and comes back to read bit `i + 1`.
#[verifier::rlimit(60)]
proof fn lemma_symbol_bit_matches(u: &MyUtmSpec, t: Seq<Symbol>, q: int, h: int, sb: int, yb: int, i: int, rd: State)
    requires
        is_utm(u),
        symbol_compare_layout(t, q, h, sb, yb),
        0 <= i < yb,
        t[q + 2 + sb + i] == t[h + 3 + sb + i],
        rd == State::CmpSymRead || rd == State::CmpSymNb2,
    ensures
        reaches(
            u,
            TmConfig { state: rd, pos: (q + 2 + sb + i) as nat, tape: marked_pair(t, q + 2 + sb, h + 3 + sb, i) },
            TmConfig {
                state: State::CmpSymNb2,
                pos: (q + 3 + sb + i) as nat,
                tape: marked_pair(t, q + 2 + sb, h + 3 + sb, i + 1),
            },
        ),
{
    lemma_compare_symbol_rules(u);
    let p = q + 2 + sb;
    let hc = h + 1 + sb;
    let tt = marked_pair(t, p, hc + 2, i);
    let b = t[p + i];
    assert(is_bit(t[p + i]));
    assert(is_bit(t[hc + 2 + i]));
    let (cs, s1, fh, fb) = if b == Symbol::Zero {
        (State::CmpSymC0, State::CmpSymC0S1, State::CmpSymC0Fh, State::CmpSymC0Fb)
    } else {
        (State::CmpSymC1, State::CmpSymC1S1, State::CmpSymC1Fh, State::CmpSymC1Fb)
    };
    let t1 = tt.update(p + i, mark(b));
    let c0 = TmConfig { state: rd, pos: (p + i) as nat, tape: tt };
    let c1 = TmConfig { state: cs, pos: (p + i + 1) as nat, tape: t1 };
    assert(tt[p + i] == b);
    assert(step_config(u, c0) == Some(c1));
    lemma_reaches_step(u, c0, c1);
    assert forall|k: int| p + i + 1 <= k < h implies #[trigger] u.spec_transition(cs, t1[k]) == Some(
        (cs, t1[k], Dir::Right),
    ) by {
        assert(t1[k] == t[k]);
        if k < p + yb {
            assert(is_bit(t[k]));
        } else if k == p + yb {
        } else {
            assert(is_rule_text(t[k]));
        }
    }
    lemma_scan_right(u, c1, h as nat);
    let c2 = TmConfig { state: cs, pos: h as nat, tape: t1 };
    lemma_reaches_steps(u, c1, (h - (p + i + 1)) as nat, c2);
    lemma_reaches_trans(u, c0, c1, c2);
    assert(t1[h] == Symbol::Hash);
    assert(t1.update(h, t1[h]) =~= t1);
    let c3 = TmConfig { state: s1, pos: (h + 1) as nat, tape: t1 };
    assert(step_config(u, c2) == Some(c3));
    lemma_reaches_step(u, c2, c3);
    lemma_reaches_trans(u, c0, c2, c3);
    assert forall|k: int| h + 1 <= k < hc implies #[trigger] u.spec_transition(s1, t1[k]) == Some(
        (s1, t1[k], Dir::Right),
    ) by {
        assert(t1[k] == t[k]);
        assert(is_bit(t[k]));
    }
    lemma_scan_right(u, c3, hc as nat);
    let c4 = TmConfig { state: s1, pos: hc as nat, tape: t1 };
    lemma_reaches_steps(u, c3, sb as nat, c4);
    lemma_reaches_trans(u, c0, c3, c4);
    assert(t1[hc] == Symbol::Hash);
    assert(t1.update(hc, t1[hc]) =~= t1);
    let c5 = TmConfig { state: fh, pos: (hc + 1) as nat, tape: t1 };
    assert(step_config(u, c4) == Some(c5));
    lemma_reaches_step(u, c4, c5);
    lemma_reaches_trans(u, c0, c4, c5);
    assert(t1[hc + 1] == Symbol::Caret);
    assert(t1.update(hc + 1, t1[hc + 1]) =~= t1);
    let c6 = TmConfig { state: fb, pos: (hc + 2) as nat, tape: t1 };
    assert(step_config(u, c5) == Some(c6));
    lemma_reaches_step(u, c5, c6);
    lemma_reaches_trans(u, c0, c5, c6);
    assert forall|k: int| hc + 2 <= k < hc + 2 + i implies #[trigger] u.spec_transition(fb, t1[k]) == Some(
        (fb, t1[k], Dir::Right),
    ) by {
        assert(t1[k] == mark(t[k]));
        assert(is_bit(t[k]));
    }
    lemma_scan_right(u, c6, (hc + 2 + i) as nat);
    let c7 = TmConfig { state: fb, pos: (hc + 2 + i) as nat, tape: t1 };
    lemma_reaches_steps(u, c6, i as nat, c7);
    lemma_reaches_trans(u, c0, c6, c7);
    let t2 = t1.update(hc + 2 + i, mark(b));
    assert(t1[hc + 2 + i] == b);
    let c8 = TmConfig { state: State::CmpSymOk, pos: (hc + 1 + i) as nat, tape: t2 };
    assert(step_config(u, c7) == Some(c8));
    lemma_reaches_step(u, c7, c8);
    lemma_reaches_trans(u, c0, c7, c8);
    let tn = marked_pair(t, p, hc + 2, i + 1);
    assert(t2 =~= tn);
    assert forall|k: int| q < k <= hc + 1 + i implies #[trigger] u.spec_transition(State::CmpSymOk, t2[k]) == Some(
        (State::CmpSymOk, t2[k], Dir::Left),
    ) by {
        if k < q + 1 + sb {
            assert(t2[k] == t[k]);
            assert(is_bit(t[k]));
        } else if k == q + 1 + sb {
            assert(t2[k] == t[k]);
        } else if k < p + i + 1 {
            assert(t2[k] == mark(t[k]));
            assert(is_bit(t[k]));
        } else if k < p + yb {
            assert(t2[k] == t[k]);
            assert(is_bit(t[k]));
        } else if k == p + yb {
            assert(t2[k] == t[k]);
        } else if k < h {
            assert(t2[k] == t[k]);
            assert(is_rule_text(t[k]));
        } else if k == h {
            assert(t2[k] == t[k]);
        } else if k < hc {
            assert(t2[k] == t[k]);
            assert(is_bit(t[k]));
        } else if k == hc || k == hc + 1 {
            assert(t2[k] == t[k]);
        } else {
            assert(t2[k] == mark(t[k]));
            assert(is_bit(t[k]));
        }
    }
    lemma_scan_left(u, c8, q as nat);
    let c9 = TmConfig { state: State::CmpSymOk, pos: q as nat, tape: t2 };
    lemma_reaches_steps(u, c8, (hc + 1 + i - q) as nat, c9);
    lemma_reaches_trans(u, c0, c8, c9);
    assert(t2[q] == Symbol::Star);
    assert(t2.update(q, t2[q]) =~= t2);
    let c10 = TmConfig { state: State::CmpSymNextbit, pos: (q + 1) as nat, tape: t2 };
    assert(step_config(u, c9) == Some(c10));
    lemma_reaches_step(u, c9, c10);
    lemma_reaches_trans(u, c0, c9, c10);
    assert forall|k: int| q + 1 <= k < q + 1 + sb implies #[trigger] u.spec_transition(State::CmpSymNextbit, t2[k]) == Some(
        (State::CmpSymNextbit, t2[k], Dir::Right),
    ) by {
        assert(t2[k] == t[k]);
        assert(is_bit(t[k]));
    }
    lemma_scan_right(u, c10, (q + 1 + sb) as nat);
    let c11 = TmConfig { state: State::CmpSymNextbit, pos: (q + 1 + sb) as nat, tape: t2 };
    lemma_reaches_steps(u, c10, sb as nat, c11);
    lemma_reaches_trans(u, c0, c10, c11);
    assert(t2[q + 1 + sb] == Symbol::Pipe);
    assert(t2.update(q + 1 + sb, t2[q + 1 + sb]) =~= t2);
    let c12 = TmConfig { state: State::CmpSymNb2, pos: p as nat, tape: t2 };
    assert(step_config(u, c11) == Some(c12));
    lemma_reaches_step(u, c11, c12);
    lemma_reaches_trans(u, c0, c11, c12);
    assert forall|k: int| p <= k < p + i + 1 implies #[trigger] u.spec_transition(State::CmpSymNb2, t2[k]) == Some(
        (State::CmpSymNb2, t2[k], Dir::Right),
    ) by {
        assert(t2[k] == mark(t[k]));
        assert(is_bit(t[k]));
    }
    lemma_scan_right(u, c12, (p + i + 1) as nat);
    let c13 = TmConfig { state: State::CmpSymNb2, pos: (p + i + 1) as nat, tape: t2 };
    lemma_reaches_steps(u, c12, (i + 1) as nat, c13);
    lemma_reaches_trans(u, c0, c12, c13);
}

/// A single rule's symbol matches the head's cell: from reading bit `i`,
/// the machine marks the remaining bits of both and leaves the rule's
/// symbol on the `|` after it, in `SymMatchCleanup`.
pub proof fn lemma_symbol_bits_match(u: &MyUtmSpec, t: Seq<Symbol>, q: int, h: int, sb: int, yb: int, i: int, rd: State)
    requires
        is_utm(u),
        symbol_compare_layout(t, q, h, sb, yb),
        0 <= i <= yb,
        forall|k: int| 0 <= k < yb ==> #[trigger] t[q + 2 + sb + k] == t[h + 3 + sb + k],
        rd == State::CmpSymRead || rd == State::CmpSymNb2,
    ensures
        reaches(
            u,
            TmConfig { state: rd, pos: (q + 2 + sb + i) as nat, tape: marked_pair(t, q + 2 + sb, h + 3 + sb, i) },
            TmConfig {
                state: State::SymMatchCleanup,
                pos: (q + 3 + sb + yb) as nat,
                tape: marked_pair(t, q + 2 + sb, h + 3 + sb, yb),
            },
        ),
    decreases yb - i,
{
    lemma_compare_symbol_rules(u);
    let p = q + 2 + sb;
    if i < yb {
        assert(t[p + i] == t[h + 3 + sb + i]);
        lemma_symbol_bit_matches(u, t, q, h, sb, yb, i, rd);
        lemma_symbol_bits_match(u, t, q, h, sb, yb, i + 1, State::CmpSymNb2);
        lemma_reaches_trans(
            u,
            TmConfig { state: rd, pos: (p + i) as nat, tape: marked_pair(t, p, h + 3 + sb, i) },
            TmConfig { state: State::CmpSymNb2, pos: (p + i + 1) as nat, tape: marked_pair(t, p, h + 3 + sb, i + 1) },
            TmConfig { state: State::SymMatchCleanup, pos: (p + yb + 1) as nat, tape: marked_pair(t, p, h + 3 + sb, yb) },
        );
    } else {
        let tt = marked_pair(t, p, h + 3 + sb, yb);
        let c0 = TmConfig { state: rd, pos: (p + yb) as nat, tape: tt };
        assert(tt[p + yb] == t[p + yb]);
        assert(tt.update(p + yb, tt[p + yb]) =~= tt);
        let c1 = TmConfig { state: State::SymMatchCleanup, pos: (p + yb + 1) as nat, tape: tt };
        assert(step_config(u, c0) == Some(c1));
        lemma_reaches_step(u, c0, c1);
    }
}

proof fn lemma_cells_first(codes: Seq<nat>, w: nat)
    requires
        codes.len() >= 1,
    ensures
        crate::encoding::cells_section(codes, w).len() >= 1 + w,
        crate::encoding::cells_section(codes, w)[0] == Symbol::Comma,
        forall|k: int| 0 <= k < w ==> #[trigger] crate::encoding::cells_section(codes, w)[1 + k] == code_symbols(codes[0], w)[k],
    decreases codes.len(),
{
    let c = crate::encoding::cells_section(codes, w);
    let d = crate::encoding::cells_section(codes.drop_last(), w);
    crate::binary::lemma_binary_len(codes.last(), w);
    if codes.len() == 1 {
        assert(d.len() == 0);
        assert(c =~= seq![Symbol::Comma] + code_symbols(codes[0], w));
    } else {
        lemma_cells_first(codes.drop_last(), w);
        assert(codes.drop_last()[0] == codes[0]);
        assert forall|k: int| 0 <= k < w implies #[trigger] c[1 + k] == code_symbols(codes[0], w)[k] by {
            assert(c[1 + k] == d[1 + k]);
        }
        assert(c[0] == d[0]);
    }
}

/// The first part of a simulated step for a single rule that matches: from
/// `$` in `Init`, the universal machine finds rule `m`, the last rule for
/// the current state, and, where that rule is a single rule for the symbol
/// under the head, compares its symbol with the head's cell bit by bit,
/// marking both, and reaches `SymMatchCleanup` just past the rule's symbol.
#[verifier::rlimit(80)]
pub proof fn lemma_step_matches_single_rule<Spec: TuringMachineSpec>(
    u: &MyUtmSpec,
    g: &Spec,
    rules: Seq<RuleView>,
    state: Spec::State,
    tape: Seq<Spec::Symbol>,
    m: int,
)
    requires
        is_utm(u),
        0 <= m < rules.len(),
        rules[m] is Single,
        rule_state(rules[m]) == position(g.spec_states(), state),
        rules[m]->Single_sym == position(
            g.spec_symbols(),
            crate::encoding::written_cells(tape, g.spec_blank())[0],
        ),
        forall|k: int| m < k < rules.len() ==> rule_state(#[trigger] rules[k]) != position(g.spec_states(), state),
        forall|k: int| 0 <= k < rules.len() ==> rule_state(#[trigger] rules[k]) < two_pow(spec_num_bits(g.spec_states().len())),
        position(g.spec_states(), state) < two_pow(spec_num_bits(g.spec_states().len())),
    ensures
        ({
            let e = encode_spec(g, rules, state, tape);
            let sb = spec_num_bits(g.spec_states().len()) as int;
            let yb = spec_num_bits(g.spec_symbols().len()) as int;
            let h = rules_end(g, rules) as int;
            let q = rule_start(g, rules, m);
            let t = e.update(q, Symbol::Star);
            reaches(
                u,
                TmConfig { state: State::Init, pos: 0, tape: e },
                TmConfig {
                    state: State::SymMatchCleanup,
                    pos: (q + 3 + sb + yb) as nat,
                    tape: marked_pair(t, q + 2 + sb, h + 3 + sb, yb),
                },
            )
        }),
{
    let ss = g.spec_states();
    let ys = g.spec_symbols();
    let sbn = spec_num_bits(ss.len());
    let ybn = spec_num_bits(ys.len());
    let sb = sbn as int;
    let yb = ybn as int;
    let e = encode_spec(g, rules, state, tape);
    let h = rules_end(g, rules) as int;
    let hc = h + 1 + sb;
    let q = rule_start(g, rules, m);
    let t = e.update(q, Symbol::Star);
    lemma_step_finds_rule(u, g, rules, state, tape, m);
    lemma_rule_marked(u, g, rules, state, tape, m);
    lemma_rule_in_section(rules, m, sbn, ybn);
    lemma_encoding_layout(g, rules, state, tape);
    lemma_serialize_view_body(rules[m], sbn, ybn);
    let v = serialize_view(rules[m], sbn, ybn);
    let o = rule_offset(rules, m, sbn, ybn);
    let rs = serialize_rules_view(rules, sbn, ybn);
    let bb = rules_begin(g) as int;
    let rst = rules[m]->Single_state;
    let sym = rules[m]->Single_sym;
    let new_state = rules[m]->Single_new_state;
    let new_sym = rules[m]->Single_new_sym;
    let dir = rules[m]->Single_dir;
    assert(rst == rule_state(rules[m]));
    crate::binary::lemma_binary_len(rst, sbn);
    crate::binary::lemma_binary_len(sym, ybn);
    lemma_code_bits(sym, ybn);
    let d = seq![Symbol::Dot];
    let pp = seq![Symbol::Pipe];
    let rest = code_symbols(new_state, sbn) + seq![Symbol::Pipe] + code_symbols(new_sym, ybn) + seq![
        Symbol::Pipe,
        dir_symbol(dir),
    ];
    assert(v =~= d + code_symbols(rst, sbn) + pp + code_symbols(sym, ybn) + pp + rest);
    assert forall|k: int| 0 <= k < v.len() implies #[trigger] t[q + k] == v[k] || k == 0 by {
        if k > 0 {
            assert(e[bb + (o + k)] == rs[o + k]);
        }
    }
    // The tape section.
    let cells = crate::encoding::symbol_codes(ys, crate::encoding::written_cells(tape, g.spec_blank()));
    lemma_cells_first(cells, ybn);
    let ts = tape_section_spec(g, tape);
    assert(e =~= header_spec(g, rules, state) + ts);
    let hd = header_spec(g, rules, state);
    assert(hd.len() == hc + 1) by {
        crate::binary::lemma_binary_len(position(ss, state) as nat, sbn);
    }
    assert(t[hc + 1] == Symbol::Caret) by {
        assert(e[hc + 1] == ts[0]);
    }
    assert forall|k: int| 0 <= k < yb implies #[trigger] t[hc + 2 + k] == code_symbols(cells[0], ybn)[k] by {
        assert(e[hc + 2 + k] == ts[1 + k]);
        assert(ts[1 + k] == crate::encoding::cells_section(cells, ybn)[1 + k]);
    }
    assert(cells[0] == sym);
    lemma_code_bits(cells[0], ybn);
    // The layout of the symbol comparison.
    let p = q + 2 + sb;
    assert forall|k: int| 0 <= k < yb implies #[trigger] t[p + k] == code_symbols(sym, ybn)[k] by {
        assert(t[q + (2 + sb + k)] == v[2 + sb + k]);
    }
    assert(t[p + yb] == Symbol::Pipe) by {
        assert(t[q + (2 + sb + yb)] == v[2 + sb + yb]);
    }
    assert(t[q + 1 + sb] == Symbol::Pipe) by {
        assert(t[q + (1 + sb)] == v[1 + sb]);
    }
    assert(p + yb < h) by {
        assert(o + v.len() <= rs.len());
    }
    assert(bits_between(t, p, p + yb)) by {
        assert forall|k: int| p <= k < p + yb implies is_bit(#[trigger] t[k]) by {
            assert(t[p + (k - p)] == code_symbols(sym, ybn)[k - p]);
        }
    }
    assert(bits_between(t, hc + 2, hc + 2 + yb)) by {
        assert forall|k: int| hc + 2 <= k < hc + 2 + yb implies is_bit(#[trigger] t[k]) by {
            assert(t[hc + 2 + (k - hc - 2)] == code_symbols(cells[0], ybn)[k - hc - 2]);
        }
    }
    assert(rule_text_between(t, p + yb + 1, h)) by {
        assert forall|k: int| p + yb + 1 <= k < h implies is_rule_text(#[trigger] t[k]) by {
            assert(t[k] == e[k]);
        }
    }
    assert(bits_between(t, h + 1, hc)) by {
        assert forall|k: int| h + 1 <= k < hc implies is_bit(#[trigger] t[k]) by {
            assert(t[k] == e[k]);
        }
    }
    assert(t[hc] == e[hc]);
    assert(hc + 2 + yb <= t.len());
    assert(symbol_compare_layout(t, q, h, sb, yb));
    assert forall|k: int| 0 <= k < yb implies #[trigger] t[q + 2 + sb + k] == t[h + 3 + sb + k] by {
        assert(t[p + k] == code_symbols(sym, ybn)[k]);
        assert(t[hc + 2 + k] == code_symbols(cells[0], ybn)[k]);
    }
    lemma_symbol_bits_match(u, t, q, h, sb, yb, 0, State::CmpSymRead);
    assert(marked_pair(t, p, h + 3 + sb, 0) =~= t);
    lemma_reaches_trans(
        u,
        TmConfig { state: State::Init, pos: 0, tape: e },
        TmConfig { state: State::CmpSymRead, pos: p as nat, tape: t },
        TmConfig { state: State::SymMatchCleanup, pos: (p + yb + 1) as nat, tape: marked_pair(t, p, h + 3 + sb, yb) },
    );
}

/// The rules that, after an accepting state failed to match, restore it
/// and go on to the next accepting state.
pub proof fn lemma_next_entry_rules(u: &MyUtmSpec)
    requires
        is_utm(u),
    ensures
        u.spec_transition(State::ChkAccDoRest, Symbol::Zero) == Some((State::ChkAccDoRest, Symbol::Zero, Dir::Right)),
        u.spec_transition(State::ChkAccDoRest, Symbol::One) == Some((State::ChkAccDoRest, Symbol::One, Dir::Right)),
        u.spec_transition(State::ChkAccDoRest, Symbol::Semi) == Some((State::ChkAccNextEntry, Symbol::Semi, Dir::Right)),
        u.spec_transition(State::ChkAccDoRest2, Symbol::Semi) == Some((State::ChkAccNextEntry, Symbol::Semi, Dir::Right)),
        u.spec_transition(State::ChkAccDoRest, Symbol::X) == Some((State::ChkAccDoRest2, Symbol::Zero, Dir::Right)),
        u.spec_transition(State::ChkAccDoRest, Symbol::Y) == Some((State::ChkAccDoRest2, Symbol::One, Dir::Right)),
        u.spec_transition(State::ChkAccDoRest2, Symbol::Zero) == Some((State::ChkAccDoRest2, Symbol::Zero, Dir::Right)),
        u.spec_transition(State::ChkAccDoRest2, Symbol::One) == Some((State::ChkAccDoRest2, Symbol::One, Dir::Right)),
        u.spec_transition(State::ChkAccDoRest2, Symbol::X) == Some((State::ChkAccDoRest2, Symbol::Zero, Dir::Right)),
        u.spec_transition(State::ChkAccDoRest2, Symbol::Y) == Some((State::ChkAccDoRest2, Symbol::One, Dir::Right)),
        u.spec_transition(State::ChkAccNextEntry, Symbol::Zero) == Some((State::ChkAccC0, Symbol::X, Dir::Right)),
        u.spec_transition(State::ChkAccNextEntry, Symbol::One) == Some((State::ChkAccC1, Symbol::Y, Dir::Right)),
{
    reveal_with_fuel(listed, 16);
    lemma_utm_lookup(State::ChkAccDoRest, Symbol::Zero);
    lemma_utm_lookup(State::ChkAccDoRest, Symbol::One);
    lemma_utm_lookup(State::ChkAccDoRest, Symbol::Semi);
    lemma_utm_lookup(State::ChkAccDoRest2, Symbol::Semi);
    lemma_utm_lookup(State::ChkAccDoRest, Symbol::X);
    lemma_utm_lookup(State::ChkAccDoRest, Symbol::Y);
    lemma_utm_lookup(State::ChkAccDoRest2, Symbol::Zero);
    lemma_utm_lookup(State::ChkAccDoRest2, Symbol::One);
    lemma_utm_lookup(State::ChkAccDoRest2, Symbol::X);
    lemma_utm_lookup(State::ChkAccDoRest2, Symbol::Y);
    lemma_utm_lookup(State::ChkAccNextEntry, Symbol::Zero);
    lemma_utm_lookup(State::ChkAccNextEntry, Symbol::One);
}

/// After the first accepting state on the tape failed to match the current
/// state (its first `j` bits marked, none or all of them too), the
/// universal machine restores it and goes on to the next accepting state:
/// it crosses the `;` and starts comparing the second accepting state by
/// marking its first bit.
pub proof fn lemma_failed_first_entry_moves_on(u: &MyUtmSpec, t: Seq<Symbol>, sb: int, j: int)
    requires
        is_utm(u),
        0 <= j <= sb,
        3 + sb <= t.len(),
        bits_between(t, 1, 1 + sb),
        t[1 + sb] == Symbol::Semi,
        is_bit(t[2 + sb]),
    ensures
        ({
            let b = t[2 + sb];
            let next = if b == Symbol::Zero {
                State::ChkAccC0
            } else {
                State::ChkAccC1
            };
            reaches(
                u,
                TmConfig {
                    state: State::ChkAccDoRest,
                    pos: 1,
                    tape: Seq::new(t.len(), |k: int| if 1 <= k < 1 + j { mark(t[k]) } else { t[k] }),
                },
                TmConfig { state: next, pos: (3 + sb) as nat, tape: t.update(2 + sb, mark(b)) },
            )
        }),
{
    lemma_next_entry_rules(u);
    let tm = Seq::new(t.len(), |k: int| if 1 <= k < 1 + j { mark(t[k]) } else { t[k] });
    let c0 = TmConfig { state: State::ChkAccDoRest, pos: 1nat, tape: tm };
    // Up to the `;`, the failed state unmarked.
    let at_semi = if j == 0 {
        assert(tm =~= t);
        assert forall|k: int| 1 <= k < 1 + sb implies #[trigger] u.spec_transition(State::ChkAccDoRest, t[k]) == Some(
            (State::ChkAccDoRest, t[k], Dir::Right),
        ) by {
            assert(is_bit(t[k]));
        }
        lemma_scan_right(u, c0, (1 + sb) as nat);
        let c2 = TmConfig { state: State::ChkAccDoRest, pos: (1 + sb) as nat, tape: t };
        lemma_reaches_steps(u, c0, sb as nat, c2);
        State::ChkAccDoRest
    } else {
        assert(is_bit(t[1]));
        let t1 = tm.update(1, t[1]);
        let c1 = TmConfig { state: State::ChkAccDoRest2, pos: 2nat, tape: t1 };
        assert(step_config(u, c0) == Some(c1));
        lemma_reaches_step(u, c0, c1);
        assert forall|k: int| 2 <= k < 1 + sb implies is_bit(#[trigger] t1[k]) || is_marked(t1[k]) by {
            assert(is_bit(t[k]));
        }
        lemma_restore_right(u, c1, (1 + sb) as nat);
        let t2 = unmarked_range(t1, 2, 1 + sb);
        assert forall|k: int| 0 <= k < t.len() implies #[trigger] t2[k] == t[k] by {
            if 1 <= k < 1 + sb {
                assert(is_bit(t[k]));
            }
        }
        assert(t2 =~= t);
        let c2 = TmConfig { state: State::ChkAccDoRest2, pos: (1 + sb) as nat, tape: t };
        lemma_reaches_steps(u, c1, (sb - 1) as nat, c2);
        lemma_reaches_trans(u, c0, c1, c2);
        State::ChkAccDoRest2
    };
    let c2 = TmConfig { state: at_semi, pos: (1 + sb) as nat, tape: t };
    assert(reaches(u, c0, c2));
    // Across the `;`.
    assert(t.update(1 + sb, t[1 + sb]) =~= t);
    let c3 = TmConfig { state: State::ChkAccNextEntry, pos: (2 + sb) as nat, tape: t };
    assert(step_config(u, c2) == Some(c3));
    lemma_reaches_step(u, c2, c3);
    lemma_reaches_trans(u, c0, c2, c3);
    let b = t[2 + sb];
    let next = if b == Symbol::Zero {
        State::ChkAccC0
    } else {
        State::ChkAccC1
    };
    let c4 = TmConfig { state: next, pos: (3 + sb) as nat, tape: t.update(2 + sb, mark(b)) };
    assert(step_config(u, c3) == Some(c4));
    lemma_reaches_step(u, c3, c4);
    lemma_reaches_trans(u, c0, c3, c4);
}

} // verus!
