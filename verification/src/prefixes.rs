//! Covering a set of codes with bit-string prefixes: the shortest prefixes
//! that every code of the set may have and no other code has.
use vstd::prelude::*;

use crate::tm::{same_label, Label};

verus! {

/// `p` is a prefix of `e`.
pub open spec fn is_prefix(p: Seq<bool>, e: Seq<bool>) -> bool {
    p.len() <= e.len() && e.take(p.len() as int) == p
}

/// Some symbol of `syms` has a code that starts with `p`.
pub open spec fn covers_target<Y>(syms: Seq<Y>, codes: Seq<(Y, Vec<bool>)>, p: Seq<bool>) -> bool {
    exists|i: int| 0 <= i < codes.len() && syms.contains(codes[i].0) && is_prefix(p, #[trigger] codes[i].1@)
}

/// Some symbol not in `syms` has a code that starts with `p`.
pub open spec fn covers_other<Y>(syms: Seq<Y>, codes: Seq<(Y, Vec<bool>)>, p: Seq<bool>) -> bool {
    exists|i: int| 0 <= i < codes.len() && !syms.contains(codes[i].0) && is_prefix(p, #[trigger] codes[i].1@)
}

/// A prefix of the cover, as found below `from`: it extends `from`, some
/// code of the set starts with it and no other code does, and every
/// shorter prefix of it that extends `from` is also the start of another
/// code.
pub open spec fn emitted_below<Y>(syms: Seq<Y>, codes: Seq<(Y, Vec<bool>)>, from: Seq<bool>, p: Seq<bool>) -> bool {
    &&& is_prefix(from, p)
    &&& covers_target(syms, codes, p)
    &&& !covers_other(syms, codes, p)
    &&& forall|k: int| from.len() <= k < p.len() ==> #[trigger] covers_other(syms, codes, p.take(k))
}

/// A prefix of the cover: some code of the set starts with it, no other
/// code does, and every shorter prefix of it is the start of another code.
pub open spec fn emitted<Y>(syms: Seq<Y>, codes: Seq<(Y, Vec<bool>)>, p: Seq<bool>) -> bool {
    emitted_below(syms, codes, Seq::empty(), p)
}

/// Bit strings in lexicographic order, `false` first; a proper prefix
/// comes first.
pub open spec fn bits_lt(a: Seq<bool>, b: Seq<bool>) -> bool
    decreases a.len(),
{
    if a.len() == 0 {
        b.len() > 0
    } else if b.len() == 0 {
        false
    } else if a[0] != b[0] {
        !a[0] && b[0]
    } else {
        bits_lt(a.drop_first(), b.drop_first())
    }
}

/// `bits_lt` is a strict total order.
pub proof fn lemma_bits_order(a: Seq<bool>, b: Seq<bool>, c: Seq<bool>)
    ensures
        !bits_lt(a, a),
        bits_lt(a, b) ==> !bits_lt(b, a),
        bits_lt(a, b) && bits_lt(b, c) ==> bits_lt(a, c),
        a != b ==> bits_lt(a, b) || bits_lt(b, a),
    decreases a.len(),
{
    if a.len() > 0 {
        lemma_bits_order(a.drop_first(), a.drop_first(), a.drop_first());
        if b.len() > 0 {
            if c.len() > 0 {
                lemma_bits_order(a.drop_first(), b.drop_first(), c.drop_first());
            } else {
                lemma_bits_order(a.drop_first(), b.drop_first(), b.drop_first());
            }
            if a != b && a[0] == b[0] {
                assert(a =~= seq![a[0]] + a.drop_first());
                assert(b =~= seq![b[0]] + b.drop_first());
            }
        }
    } else if b.len() == 0 {
        assert(a =~= b);
    }
}

/// Shorter strings first; strings of one length in lexicographic order.
pub open spec fn shorter_first(a: Seq<bool>, b: Seq<bool>) -> bool {
    a.len() < b.len() || (a.len() == b.len() && bits_lt(a, b))
}

/// The length of the longest code.
pub open spec fn max_code_len<Y>(codes: Seq<(Y, Vec<bool>)>) -> nat
    decreases codes.len(),
{
    if codes.len() == 0 {
        0
    } else {
        let rest = max_code_len(codes.drop_last());
        if rest >= codes.last().1@.len() {
            rest
        } else {
            codes.last().1@.len()
        }
    }
}

proof fn lemma_max_code_len<Y>(codes: Seq<(Y, Vec<bool>)>, i: int)
    requires
        0 <= i < codes.len(),
    ensures
        codes[i].1@.len() <= max_code_len(codes),
    decreases codes.len(),
{
    if i < codes.len() - 1 {
        lemma_max_code_len(codes.drop_last(), i);
    }
}

proof fn lemma_prefix_trans(p: Seq<bool>, q: Seq<bool>, e: Seq<bool>)
    requires
        is_prefix(p, q),
        is_prefix(q, e),
    ensures
        is_prefix(p, e),
{
    assert(e.take(p.len() as int) =~= e.take(q.len() as int).take(p.len() as int));
}

/// Whether a label occurs in a list.
fn contains_label<L: Label>(v: &Vec<L>, x: &L) -> (r: bool)
    ensures
        r == v@.contains(*x),
{
    let mut i: usize = 0;
    while i < v.len()
        invariant
            i <= v@.len(),
            forall|j: int| 0 <= j < i ==> v@[j] != *x,
        decreases v.len() - i,
    {
        if same_label(&v[i], x) {
            assert(v@[i as int] == *x);
            return true;
        }
        i = i + 1;
    }
    false
}

/// Whether `p` is a prefix of `e`.
fn prefix_of(p: &Vec<bool>, e: &Vec<bool>) -> (r: bool)
    ensures
        r == is_prefix(p@, e@),
{
    if p.len() > e.len() {
        return false;
    }
    let mut i: usize = 0;
    while i < p.len()
        invariant
            p@.len() <= e@.len(),
            i <= p@.len(),
            forall|j: int| 0 <= j < i ==> e@[j] == p@[j],
        decreases p.len() - i,
    {
        if e[i] != p[i] {
            assert(e@.take(p@.len() as int)[i as int] != p@[i as int]);
            return false;
        }
        i = i + 1;
    }
    assert(e@.take(p@.len() as int) =~= p@);
    true
}

/// Whether some code of the set (`want` true) or some other code (`want`
/// false) starts with `p`.
fn covers<Y: Label>(syms: &Vec<Y>, codes: &Vec<(Y, Vec<bool>)>, p: &Vec<bool>, want: bool) -> (r: bool)
    ensures
        r == if want {
            covers_target(syms@, codes@, p@)
        } else {
            covers_other(syms@, codes@, p@)
        },
{
    let mut i: usize = 0;
    while i < codes.len()
        invariant
            i <= codes@.len(),
            forall|j: int|
                0 <= j < i ==> !(syms@.contains(codes@[j].0) == want && is_prefix(p@, #[trigger] codes@[j].1@)),
        decreases codes.len() - i,
    {
        if contains_label(syms, &codes[i].0) == want && prefix_of(p, &codes[i].1) {
            return true;
        }
        i = i + 1;
    }
    false
}

/// A copy of a bit string with one more bit.
fn extended(p: &Vec<bool>, bit: bool) -> (r: Vec<bool>)
    ensures
        r@ == p@.push(bit),
{
    let mut r: Vec<bool> = Vec::new();
    let mut i: usize = 0;
    while i < p.len()
        invariant
            i <= p@.len(),
            r@ == p@.take(i as int),
        decreases p.len() - i,
    {
        r.push(p[i]);
        assert(r@ =~= p@.take(i + 1));
        i = i + 1;
    }
    assert(p@.take(i as int) =~= p@);
    r.push(bit);
    r
}

/// The strings of a list are pairwise different.
pub open spec fn distinct_strings(v: Seq<Vec<bool>>) -> bool {
    forall|i: int, j: int| 0 <= i < j < v.len() ==> v[i]@ != v[j]@
}

proof fn lemma_emitted_below_extends<Y>(syms: Seq<Y>, codes: Seq<(Y, Vec<bool>)>, q: Seq<bool>, p: Seq<bool>)
    requires
        emitted_below(syms, codes, q, p),
        covers_other(syms, codes, q),
    ensures
        p.len() > q.len(),
        emitted_below(syms, codes, q.push(p[q.len() as int]), p),
{
    if p.len() == q.len() {
        assert(p.take(q.len() as int) =~= p);
        assert(p == q);
    }
    let b = p[q.len() as int];
    assert(p.take(q.len() + 1int) =~= q.push(b)) by {
        assert(p.take(q.len() as int) == q);
    }
}

proof fn lemma_emitted_below_child<Y>(syms: Seq<Y>, codes: Seq<(Y, Vec<bool>)>, q: Seq<bool>, b: bool, p: Seq<bool>)
    requires
        emitted_below(syms, codes, q.push(b), p),
        covers_other(syms, codes, q),
    ensures
        emitted_below(syms, codes, q, p),
{
    let c = q.push(b);
    assert(c.take(q.len() as int) =~= q);
    lemma_prefix_trans(q, c, p);
    assert forall|k: int| q.len() <= k < p.len() implies #[trigger] covers_other(syms, codes, p.take(k)) by {
        if k == q.len() {
            assert(p.take(k) =~= q) by {
                assert(p.take(c.len() as int) == c);
                assert(p.take(k) =~= c.take(k));
            }
        }
    }
}

/// Appends to `out` the prefixes of the cover that extend `prefix`.
fn cover_below<Y: Label>(
    syms: &Vec<Y>,
    codes: &Vec<(Y, Vec<bool>)>,
    prefix: Vec<bool>,
    out: &mut Vec<Vec<bool>>,
)
    ensures
        final(out)@.len() >= old(out)@.len(),
        final(out)@.take(old(out)@.len() as int) == old(out)@,
        forall|i: int|
            old(out)@.len() <= i < final(out)@.len() ==> emitted_below(syms@, codes@, prefix@, #[trigger] final(out)@[i]@),
        forall|p: Seq<bool>|
            emitted_below(syms@, codes@, prefix@, p) ==> exists|i: int|
                old(out)@.len() <= i < final(out)@.len() && #[trigger] final(out)@[i]@ == p,
        forall|i: int, j: int|
            old(out)@.len() <= i < j < final(out)@.len() ==> final(out)@[i]@ != final(out)@[j]@,
    decreases max_code_len(codes@) + 1 - prefix@.len(),
{
    let ghost start = out@;
    if !covers(syms, codes, &prefix, true) {
        proof {
            assert forall|p: Seq<bool>| emitted_below(syms@, codes@, prefix@, p) implies false by {
                let i = choose|i: int| 0 <= i < codes@.len() && syms@.contains(codes@[i].0) && is_prefix(p, #[trigger] codes@[i].1@);
                lemma_prefix_trans(prefix@, p, codes@[i].1@);
            }
        }
        assert(out@.take(start.len() as int) =~= start);
        return;
    }
    if !covers(syms, codes, &prefix, false) {
        let ghost pv = prefix@;
        out.push(prefix);
        proof {
            assert(out@.take(start.len() as int) =~= start);
            assert(pv.take(pv.len() as int) =~= pv);
            assert(emitted_below(syms@, codes@, pv, pv));
            assert forall|p: Seq<bool>| emitted_below(syms@, codes@, pv, p) implies exists|i: int|
                start.len() <= i < out@.len() && #[trigger] out@[i]@ == p by {
                if p.len() > pv.len() {
                    assert(p.take(pv.len() as int) == pv);
                    assert(covers_other(syms@, codes@, p.take(pv.len() as int)));
                }
                assert(p.take(pv.len() as int) =~= p);
                assert(out@[start.len() as int]@ == p);
            }
        }
        return;
    }
    proof {
        let i = choose|i: int| 0 <= i < codes@.len() && syms@.contains(codes@[i].0) && is_prefix(prefix@, #[trigger] codes@[i].1@);
        lemma_max_code_len(codes@, i);
    }
    let ghost pv = prefix@;
    let left = extended(&prefix, false);
    let right = extended(&prefix, true);
    let ghost lv = left@;
    let ghost rv = right@;
    cover_below(syms, codes, left, out);
    let ghost mid = out@;
    cover_below(syms, codes, right, out);
    proof {
        assert(out@.take(start.len() as int) =~= start) by {
            assert(out@.take(mid.len() as int) == mid);
            assert(mid.take(start.len() as int) == start);
            assert(out@.take(start.len() as int) =~= mid.take(start.len() as int));
        }
        assert forall|i: int| start.len() <= i < out@.len() implies emitted_below(syms@, codes@, pv, #[trigger] out@[i]@) by {
            if i < mid.len() {
                assert(out@[i] == mid[i]);
                lemma_emitted_below_child(syms@, codes@, pv, false, mid[i]@);
            } else {
                lemma_emitted_below_child(syms@, codes@, pv, true, out@[i]@);
            }
        }
        assert forall|p: Seq<bool>| emitted_below(syms@, codes@, pv, p) implies exists|i: int|
            start.len() <= i < out@.len() && #[trigger] out@[i]@ == p by {
            lemma_emitted_below_extends(syms@, codes@, pv, p);
            if p[pv.len() as int] {
                assert(pv.push(true) == rv);
            } else {
                assert(pv.push(false) == lv);
                let i = choose|i: int| start.len() <= i < mid.len() && #[trigger] mid[i]@ == p;
                assert(out@[i] == mid[i]);
            }
        }
        assert forall|i: int, j: int| start.len() <= i < j < out@.len() implies out@[i]@ != out@[j]@ by {
            if i < mid.len() && j >= mid.len() {
                assert(out@[i] == mid[i]);
                assert(is_prefix(lv, mid[i]@));
                assert(is_prefix(rv, out@[j]@));
                if out@[i]@ == out@[j]@ {
                    assert(mid[i]@[pv.len() as int] == mid[i]@.take(lv.len() as int)[pv.len() as int]);
                    assert(out@[j]@[pv.len() as int] == out@[j]@.take(rv.len() as int)[pv.len() as int]);
                }
            } else if j < mid.len() {
                assert(out@[i] == mid[i]);
                assert(out@[j] == mid[j]);
            }
        }
    }
}

/// `shorter_first` is a strict total order.
pub proof fn lemma_shorter_first_order(a: Seq<bool>, b: Seq<bool>, c: Seq<bool>)
    ensures
        !shorter_first(a, a),
        shorter_first(a, b) && shorter_first(b, c) ==> shorter_first(a, c),
        a != b ==> shorter_first(a, b) || shorter_first(b, a),
{
    lemma_bits_order(a, b, c);
    lemma_bits_order(b, a, c);
}

/// Whether `a` comes before `b` in `shorter_first` order.
fn comes_first(a: &Vec<bool>, b: &Vec<bool>) -> (r: bool)
    ensures
        r == shorter_first(a@, b@),
{
    if a.len() != b.len() {
        return a.len() < b.len();
    }
    let mut i: usize = 0;
    assert(a@.skip(0) =~= a@);
    assert(b@.skip(0) =~= b@);
    while i < a.len()
        invariant
            a@.len() == b@.len(),
            i <= a@.len(),
            bits_lt(a@, b@) == bits_lt(a@.skip(i as int), b@.skip(i as int)),
        decreases a.len() - i,
    {
        assert(a@.skip(i as int)[0] == a@[i as int]);
        assert(b@.skip(i as int)[0] == b@[i as int]);
        if a[i] != b[i] {
            return !a[i] && b[i];
        }
        assert(a@.skip(i as int).drop_first() =~= a@.skip(i + 1));
        assert(b@.skip(i as int).drop_first() =~= b@.skip(i + 1));
        i = i + 1;
    }
    false
}

/// The bits of each string.
pub open spec fn strings_bits(v: Seq<Vec<bool>>) -> Seq<Seq<bool>> {
    v.map_values(|x: Vec<bool>| x@)
}

/// A list of strings in strict `shorter_first` order.
pub open spec fn sorted_shorter_first(v: Seq<Seq<bool>>) -> bool {
    forall|i: int, j: int| 0 <= i < j < v.len() ==> shorter_first(#[trigger] v[i], #[trigger] v[j])
}

proof fn lemma_sorted_insert(rv: Seq<Seq<bool>>, p: int, x: Seq<bool>)
    requires
        sorted_shorter_first(rv),
        0 <= p <= rv.len(),
        forall|i: int| 0 <= i < p ==> shorter_first(#[trigger] rv[i], x),
        forall|i: int| p <= i < rv.len() ==> shorter_first(x, #[trigger] rv[i]),
    ensures
        sorted_shorter_first(rv.insert(p, x)),
        forall|y: Seq<bool>| rv.insert(p, x).contains(y) <==> (rv.contains(y) || y == x),
{
    let f = rv.insert(p, x);
    assert forall|i: int, j: int| 0 <= i < j < f.len() implies shorter_first(#[trigger] f[i], #[trigger] f[j]) by {
        if j < p {
            assert(f[i] == rv[i] && f[j] == rv[j]);
        } else if j == p {
            assert(f[i] == rv[i]);
        } else if i < p {
            assert(f[i] == rv[i] && f[j] == rv[j - 1]);
            lemma_shorter_first_order(rv[i], x, rv[j - 1]);
        } else if i == p {
            assert(f[j] == rv[j - 1]);
        } else {
            assert(f[i] == rv[i - 1] && f[j] == rv[j - 1]);
        }
    }
    assert forall|y: Seq<bool>| f.contains(y) <==> (rv.contains(y) || y == x) by {
        if f.contains(y) {
            let i = choose|i: int| 0 <= i < f.len() && f[i] == y;
            if i < p {
                assert(rv[i] == y);
            } else if i > p {
                assert(rv[i - 1] == y);
            }
        }
        if rv.contains(y) {
            let i = choose|i: int| 0 <= i < rv.len() && rv[i] == y;
            if i < p {
                assert(f[i] == y);
            } else {
                assert(f[i + 1] == y);
            }
        }
        if y == x {
            assert(f[p] == y);
        }
    }
}

/// The strings of `v` in `shorter_first` order, when they are pairwise
/// different.
fn sort_shorter_first(v: Vec<Vec<bool>>) -> (r: Vec<Vec<bool>>)
    requires
        distinct_strings(v@),
    ensures
        sorted_shorter_first(strings_bits(r@)),
        forall|y: Seq<bool>| strings_bits(r@).contains(y) <==> strings_bits(v@).contains(y),
{
    let ghost vv = strings_bits(v@);
    let mut r: Vec<Vec<bool>> = Vec::new();
    let mut k: usize = 0;
    assert(strings_bits(r@) =~= Seq::<Seq<bool>>::empty());
    while k < v.len()
        invariant
            vv == strings_bits(v@),
            distinct_strings(v@),
            k <= v@.len(),
            sorted_shorter_first(strings_bits(r@)),
            forall|y: Seq<bool>| strings_bits(r@).contains(y) <==> vv.take(k as int).contains(y),
        decreases v.len() - k,
    {
        let x = extended_copy(&v[k]);
        let ghost rv = strings_bits(r@);
        let mut p: usize = 0;
        while p < r.len() && !comes_first(&x, &r[p])
            invariant
                rv == strings_bits(r@),
                p <= r@.len(),
                x@ == vv[k as int],
                forall|i: int| 0 <= i < p ==> !shorter_first(x@, #[trigger] rv[i]),
            decreases r.len() - p,
        {
            p = p + 1;
        }
        let ghost xv = x@;
        proof {
            assert(xv == v@[k as int]@);
            assert forall|i: int| 0 <= i < rv.len() implies rv[i] != xv by {
                assert(rv.contains(rv[i]));
                assert(vv.take(k as int).contains(rv[i]));
                let j = choose|j: int| 0 <= j < k && vv.take(k as int)[j] == rv[i];
                assert(v@[j]@ != v@[k as int]@);
            }
            assert forall|i: int| 0 <= i < p implies shorter_first(#[trigger] rv[i], xv) by {
                lemma_shorter_first_order(rv[i], xv, xv);
            }
            assert forall|i: int| p <= i < rv.len() implies shorter_first(xv, #[trigger] rv[i]) by {
                if i > p {
                    lemma_shorter_first_order(xv, rv[p as int], rv[i]);
                }
            }
            lemma_sorted_insert(rv, p as int, xv);
        }
        r.insert(p, x);
        proof {
            assert(strings_bits(r@) =~= rv.insert(p as int, xv));
            let t0 = vv.take(k as int);
            let t1 = vv.take(k + 1);
            assert(t1 =~= t0.push(xv));
            assert forall|y: Seq<bool>| t1.contains(y) <==> (t0.contains(y) || y == xv) by {
                if t1.contains(y) {
                    let i = choose|i: int| 0 <= i < t1.len() && t1[i] == y;
                    if i < k {
                        assert(t0[i] == y);
                    }
                }
                if t0.contains(y) {
                    let i = choose|i: int| 0 <= i < t0.len() && t0[i] == y;
                    assert(t1[i] == y);
                }
                if y == xv {
                    assert(t1[k as int] == y);
                }
            }
            assert forall|y: Seq<bool>| strings_bits(r@).contains(y) <==> t1.contains(y) by {
                assert(rv.contains(y) <==> t0.contains(y));
            }
        }
        k = k + 1;
    }
    assert(vv.take(k as int) =~= vv);
    r
}

/// A copy of a bit string.
fn extended_copy(p: &Vec<bool>) -> (r: Vec<bool>)
    ensures
        r@ == p@,
{
    crate::tm::copy_vec(p)
}

/// The bit-string prefixes that exactly cover the codes of `syms` among
/// all the codes: each is the start of some code of `syms` and of no
/// other code, and is the shortest such start along its path (each of its
/// proper prefixes is the start of another code).  They come shortest
/// first, strings of one length in lexicographic order.  For example, with
/// four-bit codes for 0 to 15, the codes of 0 to 10 are covered by `0`,
/// `100` and `1010`.
pub fn compress_prefixes<Y: Label>(syms: &Vec<Y>, symbol_encodings: &Vec<(Y, Vec<bool>)>) -> (r: Vec<Vec<bool>>)
    requires
        forall|k: int| #![trigger syms@[k]] 0 <= k < syms@.len() ==> exists|i: int|
            0 <= i < symbol_encodings@.len() && (#[trigger] symbol_encodings@[i]).0 == syms@[k],
        forall|i: int, j: int|
            0 <= i < j < symbol_encodings@.len() ==> symbol_encodings@[i].0 != symbol_encodings@[j].0,
    ensures
        forall|i: int, j: int| 0 <= i < j < r@.len() ==> shorter_first(#[trigger] r@[i]@, #[trigger] r@[j]@),
        forall|i: int| 0 <= i < r@.len() ==> emitted(syms@, symbol_encodings@, #[trigger] r@[i]@),
        forall|p: Seq<bool>| emitted(syms@, symbol_encodings@, p) ==> exists|i: int| 0 <= i < r@.len() && #[trigger] r@[i]@ == p,
{
    let mut found: Vec<Vec<bool>> = Vec::new();
    let root: Vec<bool> = Vec::new();
    assert(root@ =~= Seq::<bool>::empty());
    cover_below(syms, symbol_encodings, root, &mut found);
    assert(found@.take(0) =~= Seq::<Vec<bool>>::empty());
    let r = sort_shorter_first(found);
    proof {
        let rv = strings_bits(r@);
        let fv = strings_bits(found@);
        assert forall|i: int, j: int| 0 <= i < j < r@.len() implies shorter_first(#[trigger] r@[i]@, #[trigger] r@[j]@) by {
            assert(rv[i] == r@[i]@ && rv[j] == r@[j]@);
        }
        assert forall|i: int| 0 <= i < r@.len() implies emitted(syms@, symbol_encodings@, #[trigger] r@[i]@) by {
            assert(rv[i] == r@[i]@);
            assert(rv.contains(rv[i]));
            let j = choose|j: int| 0 <= j < fv.len() && fv[j] == rv[i];
            assert(fv[j] == found@[j]@);
        }
        assert forall|p: Seq<bool>| emitted(syms@, symbol_encodings@, p) implies exists|i: int| 0 <= i < r@.len() && #[trigger] r@[i]@ == p by {
            let j = choose|j: int| 0 <= j < found@.len() && #[trigger] found@[j]@ == p;
            assert(fv[j] == p);
            assert(fv.contains(p));
            let i = choose|i: int| 0 <= i < rv.len() && rv[i] == p;
            assert(rv[i] == r@[i]@);
        }
    }
    r
}

proof fn lemma_first_pure_prefix<Y>(syms: Seq<Y>, codes: Seq<(Y, Vec<bool>)>, t: int, k: int)
    requires
        0 <= t < codes.len(),
        syms.contains(codes[t].0),
        0 <= k <= codes[t].1@.len(),
        !covers_other(syms, codes, codes[t].1@),
        forall|j: int| 0 <= j < k ==> #[trigger] covers_other(syms, codes, codes[t].1@.take(j)),
    ensures
        exists|p: Seq<bool>| emitted(syms, codes, p) && is_prefix(p, codes[t].1@),
    decreases codes[t].1@.len() - k,
{
    let e = codes[t].1@;
    let p = e.take(k);
    if covers_other(syms, codes, p) {
        if k == e.len() {
            assert(p =~= e);
        }
        lemma_first_pure_prefix(syms, codes, t, k + 1);
    } else {
        assert(is_prefix(p, e)) by {
            assert(e.take(p.len() as int) =~= p);
        }
        assert(covers_target(syms, codes, p));
        assert(is_prefix(Seq::<bool>::empty(), p)) by {
            assert(p.take(0) =~= Seq::<bool>::empty());
        }
        assert forall|j: int| 0 <= j < p.len() implies #[trigger] covers_other(syms, codes, p.take(j)) by {
            assert(p.take(j) =~= e.take(j));
        }
        assert(emitted(syms, codes, p));
    }
}

/// Law: the cover is exact.  Where no two symbols share a code and all
/// codes have one width, a code starts with one of the emitted prefixes
/// exactly when it is the code of a symbol of the set.
pub proof fn lemma_prefixes_cover_exactly<Y>(syms: Seq<Y>, codes: Seq<(Y, Vec<bool>)>, t: int)
    requires
        0 <= t < codes.len(),
        forall|i: int, j: int| 0 <= i < j < codes.len() ==> codes[i].1@ != codes[j].1@,
        forall|i: int, j: int| 0 <= i < codes.len() && 0 <= j < codes.len() ==> codes[i].1@.len() == codes[j].1@.len(),
    ensures
        (exists|p: Seq<bool>| emitted(syms, codes, p) && is_prefix(p, codes[t].1@)) <==> syms.contains(codes[t].0),
{
    let e = codes[t].1@;
    if syms.contains(codes[t].0) {
        if covers_other(syms, codes, e) {
            let i = choose|i: int| 0 <= i < codes.len() && !syms.contains(codes[i].0) && is_prefix(e, #[trigger] codes[i].1@);
            assert(codes[i].1@.take(e.len() as int) =~= codes[i].1@);
            assert(i != t);
        }
        lemma_first_pure_prefix(syms, codes, t, 0);
    } else {
        if exists|p: Seq<bool>| emitted(syms, codes, p) && is_prefix(p, e) {
            let p = choose|p: Seq<bool>| emitted(syms, codes, p) && is_prefix(p, e);
            assert(covers_other(syms, codes, p));
        }
    }
}

} // verus!
