//! How long codes agree before they differ, and what that costs a rule
//! search that compares codes bit by bit.
use vstd::prelude::*;

use crate::binary::{binary, lemma_binary_len, to_binary, two_pow};

verus! {

/// The number of leading positions at which two bit strings agree.
pub open spec fn agree_len(x: Seq<bool>, y: Seq<bool>, k: nat) -> nat
    decreases x.len() - k,
{
    if k >= x.len() || k >= y.len() || x[k as int] != y[k as int] {
        k
    } else {
        agree_len(x, y, k + 1)
    }
}

/// The number of leading bits at which the `width`-bit codes of `a` and
/// `b` agree, most significant first.
pub open spec fn spec_common_prefix_len(a: nat, b: nat, width: nat) -> nat {
    agree_len(binary(a, width), binary(b, width), 0)
}

proof fn lemma_agree_len_bound(x: Seq<bool>, y: Seq<bool>, k: nat)
    requires
        k <= x.len(),
        x.len() == y.len(),
    ensures
        k <= agree_len(x, y, k) <= x.len(),
    decreases x.len() - k,
{
    if k < x.len() && x[k as int] == y[k as int] {
        lemma_agree_len_bound(x, y, k + 1);
    }
}

/// The number of leading bits at which the `width`-bit codes of `a` and
/// `b` agree.
pub fn common_prefix_len(a: usize, b: usize, width: usize) -> (r: usize)
    requires
        a < two_pow(width as nat),
        b < two_pow(width as nat),
    ensures
        r as nat == spec_common_prefix_len(a as nat, b as nat, width as nat),
        r <= width,
{
    let x = to_binary(a, width);
    let y = to_binary(b, width);
    proof {
        lemma_binary_len(a as nat, width as nat);
        lemma_binary_len(b as nat, width as nat);
    }
    let mut k: usize = 0;
    while k < width && x[k] == y[k]
        invariant
            k <= width,
            x@ == binary(a as nat, width as nat),
            y@ == binary(b as nat, width as nat),
            x@.len() == width,
            y@.len() == width,
            agree_len(x@, y@, k as nat) == agree_len(x@, y@, 0),
        decreases width - k,
    {
        k = k + 1;
    }
    proof {
        lemma_agree_len_bound(x@, y@, 0);
    }
    k
}

/// The cost of the pairs from `(i, j)` on, row by row (the pairs of row
/// `i` are `(i, i + 1)` to `(i, n - 1)`): each pair's weight times the
/// length of its codes' common prefix.
pub open spec fn pair_cost(w: Seq<Seq<u64>>, enc: Seq<usize>, width: nat, i: int, j: int) -> nat
    decreases enc.len() - i, enc.len() - j,
{
    if i >= enc.len() || i < 0 {
        0
    } else if j >= enc.len() || j < 0 {
        pair_cost(w, enc, width, i + 1, i + 2)
    } else {
        w[i][j] as nat * spec_common_prefix_len(enc[i] as nat, enc[j] as nat, width) + pair_cost(
            w,
            enc,
            width,
            i,
            j + 1,
        )
    }
}

/// The total cost of a code assignment: over every pair `i < j`, the pair's
/// weight times the length of the common prefix of their codes.
pub open spec fn confusion_cost(w: Seq<Seq<u64>>, enc: Seq<usize>, width: nat) -> nat {
    pair_cost(w, enc, width, 0, 1)
}

/// The prefix confusion cost of a code assignment, given symmetric pair
/// weights.
pub fn prefix_confusion_cost(pair_weight: &Vec<Vec<u64>>, encodings: &Vec<usize>, width: usize) -> (r: u64)
    requires
        pair_weight@.len() >= encodings@.len(),
        forall|i: int| 0 <= i < encodings@.len() ==> (#[trigger] pair_weight@[i])@.len() >= encodings@.len(),
        forall|i: int| 0 <= i < encodings@.len() ==> (#[trigger] encodings@[i]) < two_pow(width as nat),
        confusion_cost(pair_weight@.map_values(|v: Vec<u64>| v@), encodings@, width as nat) <= u64::MAX,
    ensures
        r as nat == confusion_cost(pair_weight@.map_values(|v: Vec<u64>| v@), encodings@, width as nat),
{
    let ghost w = pair_weight@.map_values(|v: Vec<u64>| v@);
    let n = encodings.len();
    let mut total: u64 = 0;
    let mut i: usize = 0;
    while i < n
        invariant
            n == encodings@.len(),
            i <= n,
            w == pair_weight@.map_values(|v: Vec<u64>| v@),
            pair_weight@.len() >= n,
            forall|q: int| 0 <= q < n ==> (#[trigger] pair_weight@[q])@.len() >= n,
            forall|q: int| 0 <= q < n ==> (#[trigger] encodings@[q]) < two_pow(width as nat),
            total + pair_cost(w, encodings@, width as nat, i as int, i + 1) == confusion_cost(w, encodings@, width as nat),
            confusion_cost(w, encodings@, width as nat) <= u64::MAX,
        decreases n - i,
    {
        let mut j: usize = i + 1;
        while j < n
            invariant
                n == encodings@.len(),
                i < n,
                i < j <= n,
                w == pair_weight@.map_values(|v: Vec<u64>| v@),
                pair_weight@.len() >= n,
                forall|q: int| 0 <= q < n ==> (#[trigger] pair_weight@[q])@.len() >= n,
                forall|q: int| 0 <= q < n ==> (#[trigger] encodings@[q]) < two_pow(width as nat),
                total + pair_cost(w, encodings@, width as nat, i as int, j as int) == confusion_cost(
                    w,
                    encodings@,
                    width as nat,
                ),
                confusion_cost(w, encodings@, width as nat) <= u64::MAX,
            decreases n - j,
        {
            let wt = pair_weight[i][j];
            assert(w[i as int][j as int] == wt);
            let ghost cp = spec_common_prefix_len(encodings@[i as int] as nat, encodings@[j as int] as nat, width as nat);
            assert(pair_cost(w, encodings@, width as nat, i as int, j as int) == wt as nat * cp + pair_cost(
                w,
                encodings@,
                width as nat,
                i as int,
                j + 1,
            ));
            if wt == 0 {
                assert(wt as nat * cp == 0) by (nonlinear_arith)
                    requires
                        wt == 0,
                ;
            }
            if wt != 0 {
                let c = common_prefix_len(encodings[i], encodings[j], width);
                let ghost rest = pair_cost(w, encodings@, width as nat, i as int, j + 1);
                assert(wt as nat * c as nat + rest + total <= u64::MAX);
                assert(wt as nat * c as nat <= u64::MAX);
                total = total + wt * (c as u64);
            }
            j = j + 1;
        }
        assert(pair_cost(w, encodings@, width as nat, i as int, n as int) == pair_cost(
            w,
            encodings@,
            width as nat,
            i + 1,
            i + 2,
        ));
        i = i + 1;
    }
    assert(pair_cost(w, encodings@, width as nat, n as int, n + 1) == 0);
    total
}

} // verus!
