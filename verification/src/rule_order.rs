//! The order of the encoded rules: the universal machine searches the
//! rules from right to left, so rules that are taken more often go further
//! right.
use vstd::prelude::*;

use crate::compiled::position;
use crate::encoding::{
    group_rules, grouped, lemma_grouped_fits, rule_fits, rule_view, rules_view, GuestRule,
    MyUtmSpecOptimizationHints, RuleView,
};
use crate::tm::{closed, same_label, Label, TuringMachineSpec};

verus! {

/// How often a transition was taken, by a statistics list: the last entry
/// for the state and symbol, or 0 when there is none.
pub open spec fn stat_of<S, Y>(stats: Seq<(S, Y, usize)>, s: S, y: Y) -> usize
    decreases stats.len(),
{
    if stats.len() == 0 {
        0
    } else if stats.last().0 == s && stats.last().1 == y {
        stats.last().2
    } else {
        stat_of(stats.drop_last(), s, y)
    }
}

/// The counts of a state with each of some symbol codes, added up; the sum
/// stops at `usize::MAX`.
pub open spec fn group_count<S, Y>(stats: Seq<(S, Y, usize)>, s: S, codes: Seq<nat>, symbols: Seq<Y>) -> usize
    decreases codes.len(),
{
    if codes.len() == 0 {
        0
    } else {
        let rest = group_count(stats, s, codes.drop_last(), symbols);
        let here = stat_of(stats, s, symbols[codes.last() as int]);
        if rest + here > usize::MAX {
            usize::MAX
        } else {
            (rest + here) as usize
        }
    }
}

/// The counts of a state with each of some symbol codes, as numbers.
pub open spec fn member_counts<S, Y>(stats: Seq<(S, Y, usize)>, s: S, codes: Seq<nat>, symbols: Seq<Y>) -> Seq<int> {
    codes.map_values(|c: nat| stat_of(stats, s, symbols[c as int]) as int)
}

/// The total of some numbers.
pub open spec fn total(xs: Seq<int>) -> int {
    xs.fold_left(0int, |a: int, b: int| a + b)
}

/// A group of transitions is counted as the sum of its members' counts,
/// capped at `usize::MAX`: every member's count adds to the group's.
pub proof fn lemma_group_count_is_capped_sum<S, Y>(stats: Seq<(S, Y, usize)>, s: S, codes: Seq<nat>, symbols: Seq<Y>)
    ensures
        group_count(stats, s, codes, symbols) as int == if total(member_counts(stats, s, codes, symbols)) > usize::MAX {
            usize::MAX as int
        } else {
            total(member_counts(stats, s, codes, symbols))
        },
        total(member_counts(stats, s, codes, symbols)) >= 0,
    decreases codes.len(),
{
    let m = member_counts(stats, s, codes, symbols);
    if codes.len() > 0 {
        let d = codes.drop_last();
        lemma_group_count_is_capped_sum(stats, s, d, symbols);
        assert(m.drop_last() =~= member_counts(stats, s, d, symbols));
        assert(m.last() == stat_of(stats, s, symbols[codes.last() as int]) as int);
    } else {
        assert(m.len() == 0);
    }
}

/// How often a rule over codes is taken: its transition's count, or the
/// sum of the counts of a group's transitions.
pub open spec fn rule_count<S, Y>(r: RuleView, stats: Seq<(S, Y, usize)>, states: Seq<S>, symbols: Seq<Y>) -> usize {
    match r {
        RuleView::Single { state, sym, .. } => stat_of(stats, states[state as int], symbols[sym as int]),
        RuleView::NoopGroup { state, syms, .. } => group_count(stats, states[state as int], syms, symbols),
    }
}

/// The items of a list with count `c`, in order.
pub open spec fn of_count<T>(items: Seq<(T, usize)>, c: usize) -> Seq<T>
    decreases items.len(),
{
    if items.len() == 0 {
        Seq::empty()
    } else if items.last().1 == c {
        of_count(items.drop_last(), c).push(items.last().0)
    } else {
        of_count(items.drop_last(), c)
    }
}

/// The counts of a list never go down.
pub open spec fn sorted_by_count<T>(items: Seq<(T, usize)>) -> bool {
    forall|i: int, j: int| 0 <= i < j < items.len() ==> (#[trigger] items[i]).1 <= (#[trigger] items[j]).1
}

/// A list is a stable sort of another by count: it is sorted, and the
/// items of each count are those of the other list, in the same order.
pub open spec fn stably_sorted<T>(out: Seq<(T, usize)>, input: Seq<(T, usize)>) -> bool {
    &&& sorted_by_count(out)
    &&& forall|c: usize| #[trigger] of_count(out, c) == of_count(input, c)
}

proof fn lemma_of_count_add<T>(a: Seq<(T, usize)>, b: Seq<(T, usize)>, c: usize)
    ensures
        of_count(a + b, c) == of_count(a, c) + of_count(b, c),
    decreases b.len(),
{
    if b.len() == 0 {
        assert(a + b =~= a);
        assert(of_count(a, c) + of_count(b, c) =~= of_count(a, c));
    } else {
        assert((a + b).drop_last() =~= a + b.drop_last());
        lemma_of_count_add(a, b.drop_last(), c);
        assert((a + b).last() == b.last());
        if b.last().1 == c {
            assert(of_count(a, c) + of_count(b, c) =~= (of_count(a, c) + of_count(b.drop_last(), c)).push(b.last().0));
        }
    }
}

proof fn lemma_of_count_single<T>(x: (T, usize), c: usize)
    ensures
        of_count(seq![x], c) == if x.1 == c {
            seq![x.0]
        } else {
            Seq::<T>::empty()
        },
{
    assert(seq![x].drop_last() =~= Seq::<(T, usize)>::empty());
    assert(of_count(Seq::<(T, usize)>::empty(), c) =~= Seq::<T>::empty());
    if x.1 == c {
        assert(Seq::<T>::empty().push(x.0) =~= seq![x.0]);
    }
}

proof fn lemma_of_count_none<T>(items: Seq<(T, usize)>, c: usize)
    requires
        forall|i: int| 0 <= i < items.len() ==> (#[trigger] items[i]).1 != c,
    ensures
        of_count(items, c) == Seq::<T>::empty(),
    decreases items.len(),
{
    if items.len() > 0 {
        assert forall|i: int| 0 <= i < items.drop_last().len() implies (#[trigger] items.drop_last()[i]).1 != c by {
            assert(items.drop_last()[i] == items[i]);
        }
        lemma_of_count_none(items.drop_last(), c);
        assert(items.last() == items[items.len() - 1]);
    }
}

/// Sorts by count, keeping the order of items with equal counts.
pub fn stable_sort_by_count<T>(items: Vec<(T, usize)>) -> (r: Vec<(T, usize)>)
    ensures
        stably_sorted(r@, items@),
        forall|i: int| 0 <= i < r@.len() ==> items@.contains(#[trigger] r@[i]),
{
    let ghost input = items@;
    let mut rest = items;
    let mut out: Vec<(T, usize)> = Vec::new();
    proof {
        assert forall|c: usize| #[trigger] of_count(input, c) == of_count(rest@, c) + of_count(out@, c) by {
            assert(of_count(out@, c) =~= Seq::<T>::empty());
            assert(of_count(rest@, c) + of_count(out@, c) =~= of_count(rest@, c));
        }
    }
    while rest.len() > 0
        invariant
            forall|c: usize| #[trigger] of_count(input, c) == of_count(rest@, c) + of_count(out@, c),
            sorted_by_count(out@),
            rest@ == input.take(rest@.len() as int),
            rest@.len() <= input.len(),
            forall|i: int| 0 <= i < out@.len() ==> input.contains(#[trigger] out@[i]),
        decreases rest.len(),
    {
        let ghost before_rest = rest@;
        let ghost before_out = out@;
        let x = rest.pop().unwrap();
        let mut j: usize = 0;
        while j < out.len() && out[j].1 < x.1
            invariant
                j <= out@.len(),
                out@ == before_out,
                forall|k: int| 0 <= k < j ==> (#[trigger] out@[k]).1 < x.1,
            decreases out.len() - j,
        {
            j = j + 1;
        }
        let ghost xs = x;
        out.insert(j, x);
        proof {
            let a = before_out.take(j as int);
            let b = before_out.skip(j as int);
            assert(before_out =~= a + b);
            assert(out@ =~= a + seq![xs] + b);
            assert(before_rest =~= rest@.push(xs));
            assert(rest@ =~= input.take(rest@.len() as int));
            assert(input[rest@.len() as int] == xs);
            assert forall|i: int| 0 <= i < out@.len() implies input.contains(#[trigger] out@[i]) by {
                if i < j {
                    assert(out@[i] == before_out[i]);
                } else if i > j {
                    assert(out@[i] == before_out[i - 1]);
                }
            }
            assert forall|c: usize| #[trigger] of_count(input, c) == of_count(rest@, c) + of_count(out@, c) by {
                lemma_insert_keeps_counts(xs, before_out, j as int, c);
                lemma_of_count_add(seq![xs], before_out, c);
                lemma_of_count_single(xs, c);
                assert(before_rest.drop_last() =~= rest@);
                assert(before_rest.last() == xs);
                if xs.1 == c {
                    assert(of_count(before_rest, c) =~= of_count(rest@, c).push(xs.0));
                    assert(of_count(rest@, c) + of_count(out@, c) =~= of_count(rest@, c).push(xs.0) + of_count(
                        before_out,
                        c,
                    ));
                } else {
                    assert(of_count(seq![xs] + before_out, c) =~= of_count(before_out, c));
                }
            }
            assert forall|p: int, q: int| 0 <= p < q < out@.len() implies (#[trigger] out@[p]).1 <= (#[trigger] out@[q]).1 by {
                if j < before_out.len() {
                    assert(before_out[j as int].1 >= xs.1);
                }
                if p < j && q == j {
                    assert(out@[p] == before_out[p]);
                } else if p == j && q > j {
                    assert(out@[q] == before_out[q - 1]);
                    assert(before_out[j as int].1 <= before_out[q - 1].1 || q - 1 == j);
                } else if p < j && q > j {
                    assert(out@[p] == before_out[p]);
                    assert(out@[q] == before_out[q - 1]);
                } else if q < j {
                    assert(out@[p] == before_out[p]);
                    assert(out@[q] == before_out[q]);
                } else {
                    assert(out@[p] == before_out[p - 1]);
                    assert(out@[q] == before_out[q - 1]);
                }
            }
        }
    }
    proof {
        assert forall|c: usize| #[trigger] of_count(out@, c) == of_count(input, c) by {
            assert(of_count(rest@, c) =~= Seq::<T>::empty());
            assert(of_count(rest@, c) + of_count(out@, c) =~= of_count(out@, c));
        }
    }
    out
}

/// Putting `x` before the first item whose count is not below its own
/// keeps the items of each count in order, `x` first among its count.
proof fn lemma_insert_keeps_counts<T>(x: (T, usize), out: Seq<(T, usize)>, j: int, c: usize)
    requires
        0 <= j <= out.len(),
        forall|k: int| 0 <= k < j ==> (#[trigger] out[k]).1 < x.1,
        sorted_by_count(out),
    ensures
        of_count(out.take(j) + seq![x] + out.skip(j), c) == of_count(seq![x] + out, c),
{
    let a = out.take(j);
    let b = out.skip(j);
    assert(out =~= a + b);
    lemma_of_count_add(a + seq![x], b, c);
    lemma_of_count_add(a, seq![x], c);
    lemma_of_count_add(seq![x], out, c);
    lemma_of_count_add(a, b, c);
    lemma_of_count_single(x, c);
    if x.1 == c {
        lemma_of_count_none(a, c);
    }
    assert(seq![x] + out =~= seq![x] + (a + b));
}

/// Every code of a rule over codes names a listed state or symbol.
pub open spec fn codes_within(r: RuleView, n_states: nat, n_symbols: nat) -> bool {
    match r {
        RuleView::Single { state, sym, new_state, new_sym, .. } => {
            &&& state < n_states
            &&& sym < n_symbols
            &&& new_state < n_states
            &&& new_sym < n_symbols
        },
        RuleView::NoopGroup { state, syms, .. } => {
            &&& state < n_states
            &&& forall|k: int| 0 <= k < syms.len() ==> #[trigger] syms[k] < n_symbols
        },
    }
}

proof fn lemma_position_in<T>(s: Seq<T>, x: T)
    requires
        s.contains(x),
    ensures
        0 <= position(s, x) < s.len(),
        s[position(s, x)] == x,
{
}

proof fn lemma_group_codes_within<S, Y>(rules: Seq<crate::tm::Rule<S, Y>>, r: crate::tm::Rule<S, Y>, symbols: Seq<Y>)
    requires
        forall|i: int| 0 <= i < rules.len() ==> symbols.contains(#[trigger] rules[i].1),
    ensures
        forall|k: int|
            0 <= k < crate::encoding::group_codes(rules, r, symbols).len() ==> #[trigger] crate::encoding::group_codes(
                rules,
                r,
                symbols,
            )[k] < symbols.len(),
    decreases rules.len(),
{
    if rules.len() > 0 {
        assert forall|i: int| 0 <= i < rules.drop_last().len() implies symbols.contains(#[trigger] rules.drop_last()[i].1) by {
            assert(rules.drop_last()[i] == rules[i]);
        }
        lemma_group_codes_within(rules.drop_last(), r, symbols);
        assert(symbols.contains(rules[rules.len() - 1].1));
        lemma_position_in(symbols, rules.last().1);
        let rest = crate::encoding::group_codes(rules.drop_last(), r, symbols);
        let all = crate::encoding::group_codes(rules, r, symbols);
        assert forall|k: int| 0 <= k < all.len() implies #[trigger] all[k] < symbols.len() by {
            if k < rest.len() {
                assert(all[k] == rest[k]);
            }
        }
    }
}

proof fn lemma_grouped_upto_within<S, Y>(
    rules: Seq<crate::tm::Rule<S, Y>>,
    k: int,
    states: Seq<S>,
    symbols: Seq<Y>,
)
    requires
        crate::encoding::rules_within(rules, states, symbols),
        k <= rules.len(),
    ensures
        forall|i: int|
            0 <= i < crate::encoding::grouped_upto(rules, k, states, symbols).len() ==> codes_within(
                #[trigger] crate::encoding::grouped_upto(rules, k, states, symbols)[i],
                states.len(),
                symbols.len(),
            ),
    decreases k,
{
    if k > 0 {
        lemma_grouped_upto_within(rules, k - 1, states, symbols);
        let r = rules[k - 1];
        lemma_position_in(states, r.0);
        lemma_position_in(symbols, r.1);
        lemma_position_in(states, r.2);
        lemma_position_in(symbols, r.3);
        assert forall|i: int| 0 <= i < rules.len() implies symbols.contains(#[trigger] rules[i].1) by {
            assert(symbols.contains(rules[i].1));
        }
        lemma_group_codes_within(rules, r, symbols);
        let a = crate::encoding::grouped_upto(rules, k - 1, states, symbols);
        let b = crate::encoding::grouped_entry(rules, k - 1, states, symbols);
        assert forall|i: int| 0 <= i < (a + b).len() implies codes_within(
            #[trigger] (a + b)[i],
            states.len(),
            symbols.len(),
        ) by {
            if i < a.len() {
                assert((a + b)[i] == a[i]);
            } else {
                assert((a + b)[i] == b[i - a.len()]);
            }
        }
    }
}

/// The count of a transition by the statistics.
fn stat_lookup<S: Label, Y: Label>(stats: &Vec<(S, Y, usize)>, s: S, y: Y) -> (r: usize)
    ensures
        r == stat_of(stats@, s, y),
{
    let mut i = stats.len();
    assert(stats@.take(i as int) =~= stats@);
    while i > 0
        invariant
            i <= stats@.len(),
            stat_of(stats@, s, y) == stat_of(stats@.take(i as int), s, y),
        decreases i,
    {
        let e = stats[i - 1];
        assert(stats@.take(i as int).drop_last() =~= stats@.take(i - 1));
        assert(stats@.take(i as int).last() == e);
        if same_label(&e.0, &s) && same_label(&e.1, &y) {
            return e.2;
        }
        i = i - 1;
    }
    0
}

/// How often a rule over codes is taken, by the statistics.
fn count_rule<S: Label, Y: Label>(
    g: &GuestRule<usize, usize>,
    stats: &Vec<(S, Y, usize)>,
    states: &Vec<S>,
    symbols: &Vec<Y>,
) -> (r: usize)
    requires
        codes_within(rule_view(*g), states@.len(), symbols@.len()),
    ensures
        r == rule_count(rule_view(*g), stats@, states@, symbols@),
{
    match g {
        GuestRule::Single { state, sym, .. } => stat_lookup(stats, states[*state], symbols[*sym]),
        GuestRule::NoopGroup { state, syms, .. } => {
            let ghost codes = syms@.map_values(|y: usize| y as nat);
            assert(rule_view(*g) == RuleView::NoopGroup { state: *state as nat, syms: codes, dir: g->NoopGroup_dir });
            let ghost v = RuleView::NoopGroup { state: *state as nat, syms: codes, dir: g->NoopGroup_dir };
            assert(codes_within(v, states@.len(), symbols@.len()));
            assert forall|q: int| 0 <= q < codes.len() implies #[trigger] codes[q] < symbols@.len() by {
                assert(v->NoopGroup_syms == codes);
                assert(v->NoopGroup_syms[q] < symbols@.len());
            }
            let s = states[*state];
            let mut total: usize = 0;
            let mut k: usize = 0;
            while k < syms.len()
                invariant
                    k <= syms@.len(),
                    codes == syms@.map_values(|y: usize| y as nat),
                    forall|q: int| 0 <= q < codes.len() ==> #[trigger] codes[q] < symbols@.len(),
                    total == group_count(stats@, s, codes.take(k as int), symbols@),
                decreases syms.len() - k,
            {
                assert(codes[k as int] == syms@[k as int] as nat);
                let here = stat_lookup(stats, s, symbols[syms[k]]);
                assert(codes.take(k + 1).drop_last() =~= codes.take(k as int));
                assert(codes.take(k + 1).last() == codes[k as int]);
                total = total.saturating_add(here);
                k = k + 1;
            }
            assert(codes.take(k as int) =~= codes);
            total
        },
    }
}

/// The rules of a list over codes, each with how often it is taken.
pub open spec fn with_counts<S, Y>(rules: Seq<RuleView>, stats: Seq<(S, Y, usize)>, states: Seq<S>, symbols: Seq<Y>) -> Seq<
    (RuleView, usize),
> {
    rules.map_values(|r: RuleView| (r, rule_count(r, stats, states, symbols)))
}

/// Giving each item a new first part keeps the items of each count.
proof fn lemma_of_count_map<T, U>(s: Seq<(T, usize)>, c: usize, f: spec_fn(T) -> U)
    ensures
        of_count(s.map_values(|p: (T, usize)| (f(p.0), p.1)), c) == of_count(s, c).map_values(f),
    decreases s.len(),
{
    let m = s.map_values(|p: (T, usize)| (f(p.0), p.1));
    if s.len() == 0 {
        assert(of_count(s, c).map_values(f) =~= Seq::<U>::empty());
    } else {
        lemma_of_count_map(s.drop_last(), c, f);
        assert(m.drop_last() =~= s.drop_last().map_values(|p: (T, usize)| (f(p.0), p.1)));
        assert(m.last() == (f(s.last().0), s.last().1));
        if s.last().1 == c {
            assert(of_count(s, c).map_values(f) =~= of_count(s.drop_last(), c).map_values(f).push(f(s.last().0)));
        }
    }
}

impl<'a, Guest: TuringMachineSpec> MyUtmSpecOptimizationHints<'a, Guest> {
    /// Hints that put the guest's rules on the tape by how often each is
    /// taken, least often first: the universal machine searches the rules
    /// from the right, so it finds the frequent ones first.  Rules taken
    /// equally often keep the guest's order.
    pub fn from_transition_stats(guest: &'a Guest, transition_stats: &Vec<(Guest::State, Guest::Symbol, usize)>) -> (r:
        Self)
        requires
            guest.inv(),
            closed(guest),
        ensures
            r.guest == guest,
            r.wf(),
            r.transition_stats@ == transition_stats@,
            stably_sorted(
                with_counts(rules_view(r.rules@), transition_stats@, guest.spec_states(), guest.spec_symbols()),
                with_counts(
                    grouped(guest.spec_rules(), guest.spec_states(), guest.spec_symbols()),
                    transition_stats@,
                    guest.spec_states(),
                    guest.spec_symbols(),
                ),
            ),
    {
        let states = guest.iter_states();
        let symbols = guest.iter_symbols();
        let rules = guest.iter_rules();
        let mut grouped_rules = group_rules(&rules, &states, &symbols);
        let ghost g = grouped(guest.spec_rules(), guest.spec_states(), guest.spec_symbols());
        let ghost stats = transition_stats@;
        proof {
            lemma_grouped_upto_within(guest.spec_rules(), guest.spec_rules().len() as int, guest.spec_states(), guest.spec_symbols());
            lemma_grouped_fits(guest.spec_rules(), guest.spec_states(), guest.spec_symbols());
        }
        // Each rule with its count, in the guest's order.
        let mut items: Vec<(GuestRule<usize, usize>, usize)> = Vec::new();
        while grouped_rules.len() > 0
            invariant
                items@.len() + grouped_rules@.len() == g.len(),
                forall|i: int| 0 <= i < items@.len() ==> rule_view((#[trigger] items@[i]).0) == g[i],
                forall|i: int| 0 <= i < items@.len() ==> (#[trigger] items@[i]).1 == rule_count(g[i], stats, states@, symbols@),
                forall|i: int| 0 <= i < grouped_rules@.len() ==> rule_view(#[trigger] grouped_rules@[i]) == g[items@.len() + i],
                forall|i: int| 0 <= i < g.len() ==> codes_within(#[trigger] g[i], states@.len(), symbols@.len()),
                stats == transition_stats@,
            decreases grouped_rules.len(),
        {
            let ghost before = grouped_rules@;
            let ghost k = items@.len();
            let first = grouped_rules.remove(0);
            assert(rule_view(first) == g[k as int]) by {
                assert(before[0] == first);
            }
            let c = count_rule(&first, transition_stats, &states, &symbols);
            items.push((first, c));
            assert forall|i: int| 0 <= i < grouped_rules@.len() implies rule_view(#[trigger] grouped_rules@[i]) == g[items@.len() + i] by {
                assert(grouped_rules@[i] == before[i + 1]);
            }
        }
        let ghost counted = items@;
        let sorted = stable_sort_by_count(items);
        // The rules alone, in sorted order.
        let ghost all_sorted = sorted@;
        let mut sorted = sorted;
        let mut out: Vec<GuestRule<usize, usize>> = Vec::new();
        while sorted.len() > 0
            invariant
                out@.len() + sorted@.len() == all_sorted.len(),
                forall|i: int| 0 <= i < out@.len() ==> #[trigger] out@[i] == all_sorted[i].0,
                forall|i: int| 0 <= i < sorted@.len() ==> #[trigger] sorted@[i] == all_sorted[out@.len() + i],
            decreases sorted.len(),
        {
            let ghost before = sorted@;
            let (rule, _count) = sorted.remove(0);
            assert(before[0] == all_sorted[out@.len() as int]);
            out.push(rule);
            assert forall|i: int| 0 <= i < sorted@.len() implies #[trigger] sorted@[i] == all_sorted[out@.len() + i] by {
                assert(sorted@[i] == before[i + 1]);
            }
        }
        let r = MyUtmSpecOptimizationHints {
            guest,
            rules: out,
            state_encodings: states,
            symbol_encodings: symbols,
            transition_stats: crate::tm::copy_vec(transition_stats),
        };
        proof {
            let sv = guest.spec_states();
            let yv = guest.spec_symbols();
            let view_pair = |t: GuestRule<usize, usize>| rule_view(t);
            // Every sorted item is an item of the guest's list.
            assert forall|i: int| 0 <= i < all_sorted.len() implies ({
                &&& (#[trigger] all_sorted[i]).1 == rule_count(rule_view(all_sorted[i].0), stats, sv, yv)
                &&& codes_within(rule_view(all_sorted[i].0), sv.len(), yv.len())
                &&& rule_fits(rule_view(all_sorted[i].0), r.n_state_bits(), r.n_symbol_bits())
            }) by {
                assert(counted.contains(all_sorted[i]));
                let j = choose|j: int| 0 <= j < counted.len() && counted[j] == all_sorted[i];
                assert(rule_view(counted[j].0) == g[j]);
            }
            let mc = counted.map_values(|p: (GuestRule<usize, usize>, usize)| (view_pair(p.0), p.1));
            let ms = all_sorted.map_values(|p: (GuestRule<usize, usize>, usize)| (view_pair(p.0), p.1));
            assert(mc =~= with_counts(g, stats, sv, yv));
            assert(ms =~= with_counts(rules_view(r.rules@), stats, sv, yv));
            assert forall|c: usize| #[trigger] of_count(ms, c) == of_count(mc, c) by {
                lemma_of_count_map(all_sorted, c, view_pair);
                lemma_of_count_map(counted, c, view_pair);
            }
            assert(sorted_by_count(ms)) by {
                assert forall|p: int, q: int| 0 <= p < q < ms.len() implies (#[trigger] ms[p]).1 <= (#[trigger] ms[q]).1 by {
                    assert(all_sorted[p].1 <= all_sorted[q].1);
                }
            }
            assert forall|i: int| 0 <= i < r.rules@.len() implies rule_fits(
                #[trigger] rule_view(r.rules@[i]),
                r.n_state_bits(),
                r.n_symbol_bits(),
            ) by {
                assert(r.rules@[i] == all_sorted[i].0);
            }
        }
        r
    }
}

} // verus!
