//! What a right-to-left, bit-by-bit rule search costs on a sampled mix of
//! transitions: how many rules, state bits and symbol bits it compares.
use vstd::prelude::*;

verus! {

/// Bit `b` of `x`, counting from the least significant.
pub open spec fn bit_of(x: usize, b: usize) -> usize {
    (x >> b) & 1
}

/// Comparing the low `n` bits of `a` and `b` from the most significant
/// down, stopping at the first difference: how many bits were compared, and
/// whether all of them agreed.
pub open spec fn compare_bits(a: usize, b: usize, n: nat) -> (nat, bool)
    decreases n,
{
    if n == 0 {
        (0, true)
    } else if bit_of(a, (n - 1) as usize) != bit_of(b, (n - 1) as usize) {
        (1, false)
    } else {
        let rest = compare_bits(a, b, (n - 1) as nat);
        (rest.0 + 1, rest.1)
    }
}

/// Searching the first `i` rule codes from the right for `target`: the
/// rules looked at, the state bits compared and the symbol bits compared.
/// A rule's symbol is compared only when its state agrees, and the search
/// stops at the first rule whose state and symbol both agree.
pub open spec fn search_counts(
    rules: Seq<(usize, usize)>,
    i: nat,
    target: (usize, usize),
    sb: nat,
    yb: nat,
) -> (nat, nat, nat)
    decreases i,
{
    if i == 0 || i > rules.len() {
        (0, 0, 0)
    } else {
        let r = rules[i - 1];
        let s = compare_bits(target.0, r.0, sb);
        if !s.1 {
            let rest = search_counts(rules, (i - 1) as nat, target, sb, yb);
            (rest.0 + 1, rest.1 + s.0, rest.2)
        } else {
            let y = compare_bits(target.1, r.1, yb);
            if y.1 {
                (1, s.0, y.0)
            } else {
                let rest = search_counts(rules, (i - 1) as nat, target, sb, yb);
                (rest.0 + 1, rest.1 + s.0, rest.2 + y.0)
            }
        }
    }
}

/// One step of the sampling generator.
pub open spec fn lcg_step(x: u64) -> u64 {
    vstd::wrapping::u64_specs::wrapping_add(vstd::wrapping::u64_specs::wrapping_mul(x, 6364136223846793005u64), 1u64)
}

/// The generator's state after `k` steps from its fixed seed.
pub open spec fn rng_after(k: nat) -> u64
    decreases k,
{
    if k == 0 {
        12345678901u64
    } else {
        lcg_step(rng_after((k - 1) as nat))
    }
}

/// The first position from `k` on whose running total exceeds `r`, or the
/// length when there is none; on running totals that never decrease, the
/// sample whose weight range holds `r`.
pub open spec fn first_above(c: Seq<usize>, r: usize, k: int) -> int
    decreases c.len() - k,
{
    if k >= c.len() || k < 0 {
        c.len() as int
    } else if c[k] > r {
        k
    } else {
        first_above(c, r, k + 1)
    }
}

/// The sample that a generator state picks: its high bits, reduced modulo
/// the total weight, located among the running totals.
pub open spec fn sample_index(cumulative: Seq<usize>, x: u64) -> int {
    first_above(cumulative, (((x >> 33u64) as usize) % cumulative.last()) as usize, 0)
}

/// The totals after `k` sampled searches.
pub open spec fn totals_upto(
    rule_codes: Seq<(usize, usize)>,
    samples: Seq<(usize, usize)>,
    cumulative: Seq<usize>,
    sb: nat,
    yb: nat,
    k: nat,
) -> (nat, nat, nat)
    decreases k,
{
    if k == 0 {
        (0, 0, 0)
    } else {
        let prev = totals_upto(rule_codes, samples, cumulative, sb, yb, (k - 1) as nat);
        let t = samples[sample_index(cumulative, rng_after(k))];
        let s = search_counts(rule_codes, rule_codes.len(), t, sb, yb);
        (prev.0 + s.0, prev.1 + s.1, prev.2 + s.2)
    }
}

/// The totals of rules, state bits and symbol bits compared over
/// `iterations` sampled searches.
pub open spec fn spec_rule_search_totals(
    rule_codes: Seq<(usize, usize)>,
    samples: Seq<(usize, usize)>,
    cumulative: Seq<usize>,
    sb: nat,
    yb: nat,
    iterations: nat,
) -> (nat, nat, nat) {
    totals_upto(rule_codes, samples, cumulative, sb, yb, iterations)
}

proof fn lemma_totals_monotone(
    rule_codes: Seq<(usize, usize)>,
    samples: Seq<(usize, usize)>,
    cumulative: Seq<usize>,
    sb: nat,
    yb: nat,
    k: nat,
    n: nat,
)
    requires
        k <= n,
    ensures
        totals_upto(rule_codes, samples, cumulative, sb, yb, k).0 <= totals_upto(rule_codes, samples, cumulative, sb, yb, n).0,
        totals_upto(rule_codes, samples, cumulative, sb, yb, k).1 <= totals_upto(rule_codes, samples, cumulative, sb, yb, n).1,
        totals_upto(rule_codes, samples, cumulative, sb, yb, k).2 <= totals_upto(rule_codes, samples, cumulative, sb, yb, n).2,
    decreases n,
{
    if k < n {
        lemma_totals_monotone(rule_codes, samples, cumulative, sb, yb, k, (n - 1) as nat);
    }
}

proof fn lemma_first_above_found(c: Seq<usize>, r: usize, k: int)
    requires
        0 <= k < c.len(),
        c.last() > r,
    ensures
        k <= first_above(c, r, k) < c.len(),
    decreases c.len() - k,
{
    if c[k] <= r {
        lemma_first_above_found(c, r, k + 1);
    }
}

/// Compares the low `n` bits of `a` and `b` from the most significant down,
/// stopping at the first difference.
fn count_compared(a: usize, b: usize, n: usize) -> (r: (u64, bool))
    requires
        n <= usize::BITS,
    ensures
        r.0 as nat == compare_bits(a, b, n as nat).0,
        r.1 == compare_bits(a, b, n as nat).1,
        r.0 <= n,
    decreases n,
{
    if n == 0 {
        (0, true)
    } else if (a >> (n - 1)) & 1 != (b >> (n - 1)) & 1 {
        (1, false)
    } else {
        let rest = count_compared(a, b, n - 1);
        (rest.0 + 1, rest.1)
    }
}

/// The first position whose running total exceeds `r`.
fn find_first_above(cumulative: &Vec<usize>, r: usize) -> (idx: usize)
    ensures
        idx as int == first_above(cumulative@, r, 0),
{
    let mut k: usize = 0;
    while k < cumulative.len() && cumulative[k] <= r
        invariant
            k <= cumulative@.len(),
            first_above(cumulative@, r, 0) == first_above(cumulative@, r, k as int),
        decreases cumulative.len() - k,
    {
        k = k + 1;
    }
    k
}

/// Runs `iterations` searches of the rule codes, each for a transition
/// drawn from the samples by weight with a fixed generator, and adds up how
/// many rules, state bits and symbol bits they compared.  `cumulative`
/// holds the running totals of the samples' weights.
pub fn rule_search_totals(
    rule_codes: &Vec<(usize, usize)>,
    samples: &Vec<(usize, usize)>,
    cumulative: &Vec<usize>,
    n_state_bits: usize,
    n_sym_bits: usize,
    iterations: u64,
) -> (r: (u64, u64, u64))
    requires
        cumulative@.len() > 0,
        cumulative@.last() > 0,
        samples@.len() == cumulative@.len(),
        n_state_bits <= usize::BITS,
        n_sym_bits <= usize::BITS,
        spec_rule_search_totals(rule_codes@, samples@, cumulative@, n_state_bits as nat, n_sym_bits as nat, iterations as nat).0 <= u64::MAX,
        spec_rule_search_totals(rule_codes@, samples@, cumulative@, n_state_bits as nat, n_sym_bits as nat, iterations as nat).1 <= u64::MAX,
        spec_rule_search_totals(rule_codes@, samples@, cumulative@, n_state_bits as nat, n_sym_bits as nat, iterations as nat).2 <= u64::MAX,
    ensures
        r.0 as nat == spec_rule_search_totals(rule_codes@, samples@, cumulative@, n_state_bits as nat, n_sym_bits as nat, iterations as nat).0,
        r.1 as nat == spec_rule_search_totals(rule_codes@, samples@, cumulative@, n_state_bits as nat, n_sym_bits as nat, iterations as nat).1,
        r.2 as nat == spec_rule_search_totals(rule_codes@, samples@, cumulative@, n_state_bits as nat, n_sym_bits as nat, iterations as nat).2,
{
    let ghost rc = rule_codes@;
    let ghost sm = samples@;
    let ghost cu = cumulative@;
    let ghost sb = n_state_bits as nat;
    let ghost yb = n_sym_bits as nat;
    let ghost fin = totals_upto(rc, sm, cu, sb, yb, iterations as nat);
    let total_weight = cumulative[cumulative.len() - 1];
    let n_rules = rule_codes.len();
    let mut total_rule_checks: u64 = 0;
    let mut total_state_bits: u64 = 0;
    let mut total_sym_bits: u64 = 0;
    let mut rng_state: u64 = 12345678901;
    let mut it: u64 = 0;
    while it < iterations
        invariant
            it <= iterations,
            rc == rule_codes@,
            sm == samples@,
            cu == cumulative@,
            sb == n_state_bits,
            yb == n_sym_bits,
            n_rules == rc.len(),
            cu.len() > 0,
            total_weight == cu.last(),
            total_weight > 0,
            sm.len() == cu.len(),
            n_state_bits <= usize::BITS,
            n_sym_bits <= usize::BITS,
            fin == totals_upto(rc, sm, cu, sb, yb, iterations as nat),
            fin.0 <= u64::MAX,
            fin.1 <= u64::MAX,
            fin.2 <= u64::MAX,
            rng_state == rng_after(it as nat),
            (total_rule_checks as nat, total_state_bits as nat, total_sym_bits as nat) == totals_upto(rc, sm, cu, sb, yb, it as nat),
        decreases iterations - it,
    {
        rng_state = rng_state.wrapping_mul(6364136223846793005).wrapping_add(1);
        let r = ((rng_state >> 33u64) as usize) % total_weight;
        let idx = find_first_above(cumulative, r);
        proof {
            lemma_first_above_found(cu, r, 0);
            lemma_totals_monotone(rc, sm, cu, sb, yb, (it + 1) as nat, iterations as nat);
        }
        let target = samples[idx];
        let ghost full = search_counts(rc, rc.len(), target, sb, yb);
        let ghost base = (total_rule_checks as nat, total_state_bits as nat, total_sym_bits as nat);
        assert(totals_upto(rc, sm, cu, sb, yb, (it + 1) as nat) == (base.0 + full.0, base.1 + full.1, base.2 + full.2));
        let mut i: usize = n_rules;
        let mut found = false;
        while i > 0 && !found
            invariant
                i <= n_rules,
                n_rules == rc.len(),
                rc == rule_codes@,
                n_state_bits <= usize::BITS,
                n_sym_bits <= usize::BITS,
                sb == n_state_bits,
                yb == n_sym_bits,
                full == search_counts(rc, rc.len(), target, sb, yb),
                base.0 + full.0 <= u64::MAX,
                base.1 + full.1 <= u64::MAX,
                base.2 + full.2 <= u64::MAX,
                !found ==> total_rule_checks + search_counts(rc, i as nat, target, sb, yb).0 == base.0 + full.0,
                !found ==> total_state_bits + search_counts(rc, i as nat, target, sb, yb).1 == base.1 + full.1,
                !found ==> total_sym_bits + search_counts(rc, i as nat, target, sb, yb).2 == base.2 + full.2,
                found ==> (total_rule_checks as nat, total_state_bits as nat, total_sym_bits as nat) == (
                    base.0 + full.0,
                    base.1 + full.1,
                    base.2 + full.2,
                ),
            decreases i,
        {
            let ghost rest = search_counts(rc, (i - 1) as nat, target, sb, yb);
            let (rule_st, rule_sym) = rule_codes[i - 1];
            total_rule_checks = total_rule_checks + 1;
            let (sc, s_ok) = count_compared(target.0, rule_st, n_state_bits);
            total_state_bits = total_state_bits + sc;
            if s_ok {
                let (yc, y_ok) = count_compared(target.1, rule_sym, n_sym_bits);
                total_sym_bits = total_sym_bits + yc;
                if y_ok {
                    found = true;
                }
            }
            i = i - 1;
        }
        it = it + 1;
    }
    (total_rule_checks, total_state_bits, total_sym_bits)
}

} // verus!
