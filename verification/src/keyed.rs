//! Names as character sequences, their lexicographic order, and maps from
//! keys made of names to values made of names, held as vectors of entries
//! sorted by key.
use vstd::prelude::*;

use crate::tm::copy_vec;

verus! {

/// A list of names, each a list of characters.
pub type Names = Vec<Vec<char>>;

/// The characters of each name.
pub open spec fn names_view(n: Seq<Vec<char>>) -> Seq<Seq<char>> {
    n.map_values(|v: Vec<char>| v@)
}

/// Characters ordered by their code points.
pub open spec fn char_lt(a: char, b: char) -> bool {
    (a as int) < (b as int)
}

/// The lexicographic order on names: a proper prefix comes first; else the
/// first differing character decides.
pub open spec fn name_lt(a: Seq<char>, b: Seq<char>) -> bool
    decreases a.len(),
{
    if a.len() == 0 {
        b.len() > 0
    } else if b.len() == 0 {
        false
    } else if a[0] != b[0] {
        char_lt(a[0], b[0])
    } else {
        name_lt(a.drop_first(), b.drop_first())
    }
}

/// The lexicographic order on lists of names, names compared by `name_lt`.
pub open spec fn key_lt(a: Seq<Seq<char>>, b: Seq<Seq<char>>) -> bool
    decreases a.len(),
{
    if a.len() == 0 {
        b.len() > 0
    } else if b.len() == 0 {
        false
    } else if a[0] != b[0] {
        name_lt(a[0], b[0])
    } else {
        key_lt(a.drop_first(), b.drop_first())
    }
}

/// `name_lt` is a strict total order.
pub proof fn lemma_name_order(a: Seq<char>, b: Seq<char>, c: Seq<char>)
    ensures
        !name_lt(a, a),
        name_lt(a, b) ==> !name_lt(b, a),
        name_lt(a, b) && name_lt(b, c) ==> name_lt(a, c),
        a != b ==> name_lt(a, b) || name_lt(b, a),
    decreases a.len(),
{
    if a.len() > 0 {
        lemma_name_order(a.drop_first(), a.drop_first(), a.drop_first());
        if b.len() > 0 {
            if c.len() > 0 {
                lemma_name_order(a.drop_first(), b.drop_first(), c.drop_first());
            } else {
                lemma_name_order(a.drop_first(), b.drop_first(), b.drop_first());
            }
            if a != b && a[0] == b[0] {
                assert(a =~= seq![a[0]] + a.drop_first());
                assert(b =~= seq![b[0]] + b.drop_first());
            }
        }
    } else if b.len() == 0 {
        assert(a =~= b);
    }
}

/// `key_lt` is a strict total order.
pub proof fn lemma_key_order(a: Seq<Seq<char>>, b: Seq<Seq<char>>, c: Seq<Seq<char>>)
    ensures
        !key_lt(a, a),
        key_lt(a, b) ==> !key_lt(b, a),
        key_lt(a, b) && key_lt(b, c) ==> key_lt(a, c),
        a != b ==> key_lt(a, b) || key_lt(b, a),
    decreases a.len(),
{
    if a.len() > 0 {
        lemma_name_order(a[0], a[0], a[0]);
        lemma_key_order(a.drop_first(), a.drop_first(), a.drop_first());
        if b.len() > 0 {
            lemma_name_order(a[0], b[0], b[0]);
            lemma_name_order(b[0], a[0], a[0]);
            if c.len() > 0 {
                lemma_name_order(a[0], b[0], c[0]);
                lemma_key_order(a.drop_first(), b.drop_first(), c.drop_first());
            } else {
                lemma_key_order(a.drop_first(), b.drop_first(), b.drop_first());
            }
            if a != b && a[0] == b[0] {
                assert(a =~= seq![a[0]] + a.drop_first());
                assert(b =~= seq![b[0]] + b.drop_first());
            }
        }
    } else if b.len() == 0 {
        assert(a =~= b);
    }
}

/// The outcome of a three-way comparison.
#[derive(Debug, Clone, Copy, PartialEq, Eq, Structural)]
pub enum Comparison {
    Less,
    Equal,
    Greater,
}

/// Compares two names lexicographically.
pub fn compare_names(a: &Vec<char>, b: &Vec<char>) -> (r: Comparison)
    ensures
        (r == Comparison::Less) == name_lt(a@, b@),
        (r == Comparison::Equal) == (a@ == b@),
        (r == Comparison::Greater) == name_lt(b@, a@),
{
    proof {
        lemma_name_order(a@, b@, a@);
        lemma_name_order(b@, a@, b@);
    }
    assert(a@.skip(0) =~= a@);
    assert(b@.skip(0) =~= b@);
    let mut i: usize = 0;
    while i < a.len() && i < b.len()
        invariant
            i <= a@.len(),
            i <= b@.len(),
            a@.take(i as int) == b@.take(i as int),
            name_lt(a@, b@) == name_lt(a@.skip(i as int), b@.skip(i as int)),
            name_lt(b@, a@) == name_lt(b@.skip(i as int), a@.skip(i as int)),
        decreases a.len() - i,
    {
        let x = a[i];
        let y = b[i];
        if x != y {
            assert(a@.skip(i as int)[0] == x);
            assert(b@.skip(i as int)[0] == y);
            if x < y {
                return Comparison::Less;
            } else {
                return Comparison::Greater;
            }
        }
        assert(a@.skip(i as int).drop_first() =~= a@.skip(i + 1));
        assert(b@.skip(i as int).drop_first() =~= b@.skip(i + 1));
        assert(a@.take(i + 1) =~= a@.take(i as int).push(x));
        assert(b@.take(i + 1) =~= b@.take(i as int).push(y));
        i = i + 1;
    }
    if i == a.len() && i == b.len() {
        assert(a@ =~= a@.take(i as int));
        assert(b@ =~= b@.take(i as int));
        Comparison::Equal
    } else if i == a.len() {
        assert(a@.skip(i as int).len() == 0);
        assert(b@.skip(i as int).len() > 0);
        assert(a@.len() != b@.len());
        Comparison::Less
    } else {
        assert(b@.skip(i as int).len() == 0);
        assert(a@.skip(i as int).len() > 0);
        assert(a@.len() != b@.len());
        Comparison::Greater
    }
}

/// Compares two lists of names lexicographically.
pub fn compare_keys(a: &Names, b: &Names) -> (r: Comparison)
    ensures
        (r == Comparison::Less) == key_lt(names_view(a@), names_view(b@)),
        (r == Comparison::Equal) == (names_view(a@) == names_view(b@)),
        (r == Comparison::Greater) == key_lt(names_view(b@), names_view(a@)),
{
    let ghost av = names_view(a@);
    let ghost bv = names_view(b@);
    proof {
        lemma_key_order(av, bv, av);
        lemma_key_order(bv, av, bv);
    }
    assert(av.skip(0) =~= av);
    assert(bv.skip(0) =~= bv);
    let mut i: usize = 0;
    while i < a.len() && i < b.len()
        invariant
            av == names_view(a@),
            bv == names_view(b@),
            i <= a@.len(),
            i <= b@.len(),
            av.take(i as int) == bv.take(i as int),
            key_lt(av, bv) == key_lt(av.skip(i as int), bv.skip(i as int)),
            key_lt(bv, av) == key_lt(bv.skip(i as int), av.skip(i as int)),
        decreases a.len() - i,
    {
        let c = compare_names(&a[i], &b[i]);
        assert(av.skip(i as int)[0] == a@[i as int]@);
        assert(bv.skip(i as int)[0] == b@[i as int]@);
        match c {
            Comparison::Less => {
                return Comparison::Less;
            },
            Comparison::Greater => {
                return Comparison::Greater;
            },
            Comparison::Equal => {},
        }
        assert(av.skip(i as int).drop_first() =~= av.skip(i + 1));
        assert(bv.skip(i as int).drop_first() =~= bv.skip(i + 1));
        assert(av.take(i + 1) =~= av.take(i as int).push(av[i as int]));
        assert(bv.take(i + 1) =~= bv.take(i as int).push(bv[i as int]));
        i = i + 1;
    }
    if i == a.len() && i == b.len() {
        assert(av =~= av.take(i as int));
        assert(bv =~= bv.take(i as int));
        Comparison::Equal
    } else if i == a.len() {
        assert(av.skip(i as int).len() == 0);
        assert(bv.skip(i as int).len() > 0);
        assert(av.len() != bv.len());
        Comparison::Less
    } else {
        assert(bv.skip(i as int).len() == 0);
        assert(av.skip(i as int).len() > 0);
        assert(av.len() != bv.len());
        Comparison::Greater
    }
}

/// A copy of a list of names.
pub fn copy_names(n: &Names) -> (r: Names)
    ensures
        names_view(r@) == names_view(n@),
{
    let mut r: Names = Vec::new();
    let mut i: usize = 0;
    while i < n.len()
        invariant
            i <= n@.len(),
            names_view(r@) == names_view(n@).take(i as int),
        decreases n.len() - i,
    {
        let c = copy_vec(&n[i]);
        let ghost before = r@;
        r.push(c);
        assert(names_view(r@) =~= names_view(before).push(c@));
        assert(names_view(n@)[i as int] == n@[i as int]@);
        assert(names_view(r@) =~= names_view(n@).take(i + 1));
        i = i + 1;
    }
    assert(names_view(n@).take(i as int) =~= names_view(n@));
    r
}

/// A map entry: a key and a value, both lists of names.
pub type Entry = (Names, Names);

/// The names of the keys and values of a list of entries.
pub open spec fn entries_view(e: Seq<Entry>) -> Seq<(Seq<Seq<char>>, Seq<Seq<char>>)> {
    e.map_values(|p: Entry| (names_view(p.0@), names_view(p.1@)))
}

/// The keys of a list of entries strictly increase.
pub open spec fn keys_sorted<V>(e: Seq<(Seq<Seq<char>>, V)>) -> bool {
    forall|i: int, j: int| 0 <= i < j < e.len() ==> key_lt(#[trigger] e[i].0, #[trigger] e[j].0)
}

/// A list of entries, keys strictly increasing, holds exactly the entries
/// of a map.
pub open spec fn represents<V>(e: Seq<(Seq<Seq<char>>, V)>, m: Map<Seq<Seq<char>>, V>) -> bool {
    &&& keys_sorted(e)
    &&& forall|i: int|
        0 <= i < e.len() ==> m.contains_key(#[trigger] e[i].0) && m[e[i].0] == e[i].1
    &&& forall|k: Seq<Seq<char>>| #[trigger]
        m.contains_key(k) ==> exists|i: int| 0 <= i < e.len() && e[i].0 == k
}

/// The map that inserting each pair in turn builds, a later pair
/// replacing an earlier one with the same key.
pub open spec fn fold_upsert(pairs: Seq<(Seq<Seq<char>>, Seq<Seq<char>>)>) -> Map<
    Seq<Seq<char>>,
    Seq<Seq<char>>,
>
    decreases pairs.len(),
{
    if pairs.len() == 0 {
        Map::empty()
    } else {
        fold_upsert(pairs.drop_last()).insert(pairs.last().0, pairs.last().1)
    }
}

/// The map that inserting each pair in turn builds, an earlier pair
/// keeping its place against a later one with the same key.
pub open spec fn fold_first(pairs: Seq<(Seq<Seq<char>>, Seq<Seq<char>>)>) -> Map<
    Seq<Seq<char>>,
    Seq<Seq<char>>,
>
    decreases pairs.len(),
{
    if pairs.len() == 0 {
        Map::empty()
    } else {
        let m = fold_first(pairs.drop_last());
        if m.contains_key(pairs.last().0) {
            m
        } else {
            m.insert(pairs.last().0, pairs.last().1)
        }
    }
}

/// The map from each key to the names paired with it, in order.
pub open spec fn fold_append(pairs: Seq<(Seq<Seq<char>>, Seq<char>)>) -> Map<
    Seq<Seq<char>>,
    Seq<Seq<char>>,
>
    decreases pairs.len(),
{
    if pairs.len() == 0 {
        Map::empty()
    } else {
        let m = fold_append(pairs.drop_last());
        let k = pairs.last().0;
        let before = if m.contains_key(k) {
            m[k]
        } else {
            Seq::empty()
        };
        m.insert(k, before.push(pairs.last().1))
    }
}

proof fn lemma_represents_empty<V>()
    ensures
        represents(Seq::<(Seq<Seq<char>>, V)>::empty(), Map::empty()),
{
}

proof fn lemma_represents_insert<V>(
    e: Seq<(Seq<Seq<char>>, V)>,
    m: Map<Seq<Seq<char>>, V>,
    p: int,
    k: Seq<Seq<char>>,
    v: V,
)
    requires
        represents(e, m),
        0 <= p <= e.len(),
        forall|j: int| 0 <= j < p ==> key_lt(#[trigger] e[j].0, k),
        forall|j: int| p <= j < e.len() ==> key_lt(k, #[trigger] e[j].0),
    ensures
        !m.contains_key(k),
        represents(e.insert(p, (k, v)), m.insert(k, v)),
{
    let f = e.insert(p, (k, v));
    let n = m.insert(k, v);
    lemma_key_order(k, k, k);
    if m.contains_key(k) {
        let i = choose|i: int| 0 <= i < e.len() && e[i].0 == k;
        assert(e[i].0 == k);
    }
    assert forall|i: int, j: int| 0 <= i < j < f.len() implies key_lt(#[trigger] f[i].0, #[trigger] f[j].0) by {
        if j < p {
            assert(f[i] == e[i] && f[j] == e[j]);
        } else if j == p {
            assert(f[i] == e[i]);
        } else if i < p {
            assert(f[i] == e[i] && f[j] == e[j - 1]);
            lemma_key_order(e[i].0, k, e[j - 1].0);
        } else if i == p {
            assert(f[j] == e[j - 1]);
        } else {
            assert(f[i] == e[i - 1] && f[j] == e[j - 1]);
        }
    }
    assert forall|i: int| 0 <= i < f.len() implies n.contains_key(#[trigger] f[i].0) && n[f[i].0]
        == f[i].1 by {
        if i < p {
            assert(f[i] == e[i]);
            assert(e[i].0 != k);
        } else if i > p {
            assert(f[i] == e[i - 1]);
            assert(e[i - 1].0 != k);
        }
    }
    assert forall|q: Seq<Seq<char>>| #[trigger] n.contains_key(q) implies exists|i: int|
        0 <= i < f.len() && f[i].0 == q by {
        if q == k {
            assert(f[p].0 == q);
        } else {
            assert(m.contains_key(q));
            let i = choose|i: int| 0 <= i < e.len() && e[i].0 == q;
            if i < p {
                assert(f[i] == e[i]);
            } else {
                assert(f[i + 1] == e[i]);
            }
        }
    }
}

proof fn lemma_represents_update<V>(e: Seq<(Seq<Seq<char>>, V)>, m: Map<Seq<Seq<char>>, V>, p: int, v: V)
    requires
        represents(e, m),
        0 <= p < e.len(),
    ensures
        represents(e.update(p, (e[p].0, v)), m.insert(e[p].0, v)),
{
    let f = e.update(p, (e[p].0, v));
    let n = m.insert(e[p].0, v);
    assert forall|i: int, j: int| 0 <= i < j < f.len() implies key_lt(#[trigger] f[i].0, #[trigger] f[j].0) by {
        assert(f[i].0 == e[i].0 && f[j].0 == e[j].0);
    }
    assert forall|i: int| 0 <= i < f.len() implies n.contains_key(#[trigger] f[i].0) && n[f[i].0]
        == f[i].1 by {
        if i != p {
            assert(f[i] == e[i]);
            if e[i].0 == e[p].0 {
                if i < p {
                    assert(key_lt(e[i].0, e[p].0));
                } else {
                    assert(key_lt(e[p].0, e[i].0));
                }
                lemma_key_order(e[i].0, e[i].0, e[i].0);
            }
        }
    }
    assert forall|q: Seq<Seq<char>>| #[trigger] n.contains_key(q) implies exists|i: int|
        0 <= i < f.len() && f[i].0 == q by {
        if q == e[p].0 {
            assert(f[p].0 == q);
        } else {
            let i = choose|i: int| 0 <= i < e.len() && e[i].0 == q;
            assert(f[i].0 == e[i].0);
        }
    }
}

/// Where a key stands among sorted entries: whether an entry has it, and
/// the position of that entry or of the first entry with a larger key.
fn locate(entries: &Vec<Entry>, key: &Names) -> (r: (bool, usize))
    requires
        keys_sorted(entries_view(entries@)),
    ensures
        r.1 <= entries@.len(),
        forall|j: int| 0 <= j < r.1 ==> key_lt(#[trigger] entries_view(entries@)[j].0, names_view(key@)),
        r.0 ==> r.1 < entries@.len() && entries_view(entries@)[r.1 as int].0 == names_view(key@),
        !r.0 ==> forall|j: int|
            r.1 <= j < entries@.len() ==> key_lt(names_view(key@), #[trigger] entries_view(entries@)[j].0),
{
    let ghost ev = entries_view(entries@);
    let ghost kv = names_view(key@);
    let mut i: usize = 0;
    while i < entries.len()
        invariant
            ev == entries_view(entries@),
            kv == names_view(key@),
            keys_sorted(ev),
            i <= entries@.len(),
            forall|j: int| 0 <= j < i ==> key_lt(#[trigger] ev[j].0, kv),
        decreases entries.len() - i,
    {
        let c = compare_keys(&entries[i].0, key);
        assert(ev[i as int].0 == names_view(entries@[i as int].0@));
        match c {
            Comparison::Less => {},
            Comparison::Equal => {
                return (true, i);
            },
            Comparison::Greater => {
                assert forall|j: int| i <= j < entries@.len() implies key_lt(kv, #[trigger] ev[j].0) by {
                    if j > i {
                        lemma_key_order(kv, ev[i as int].0, ev[j].0);
                    }
                }
                return (false, i);
            },
        }
        i = i + 1;
    }
    (false, i)
}

proof fn lemma_entries_view_insert(e: Seq<Entry>, p: int, x: Entry)
    requires
        0 <= p <= e.len(),
    ensures
        entries_view(e.insert(p, x)) == entries_view(e).insert(p, (names_view(x.0@), names_view(x.1@))),
{
    assert(entries_view(e.insert(p, x)) =~= entries_view(e).insert(p, (names_view(x.0@), names_view(x.1@))));
}

proof fn lemma_entries_view_update(e: Seq<Entry>, p: int, x: Entry)
    requires
        0 <= p < e.len(),
    ensures
        entries_view(e.update(p, x)) == entries_view(e).update(p, (names_view(x.0@), names_view(x.1@))),
{
    assert(entries_view(e.update(p, x)) =~= entries_view(e).update(p, (names_view(x.0@), names_view(x.1@))));
}

/// Sets the value of a key, adding an entry where none has it.
fn upsert(entries: &mut Vec<Entry>, key: Names, value: Names, Ghost(m): Ghost<Map<Seq<Seq<char>>, Seq<Seq<char>>>>)
    requires
        represents(entries_view(old(entries)@), m),
    ensures
        represents(entries_view(final(entries)@), m.insert(names_view(key@), names_view(value@))),
{
    let (found, p) = locate(entries, &key);
    let ghost e = entries@;
    if found {
        proof {
            lemma_entries_view_update(e, p as int, (key, value));
            lemma_represents_update(entries_view(e), m, p as int, names_view(value@));
        }
        entries.set(p, (key, value));
    } else {
        proof {
            lemma_entries_view_insert(e, p as int, (key, value));
            lemma_represents_insert(entries_view(e), m, p as int, names_view(key@), names_view(value@));
        }
        entries.insert(p, (key, value));
    }
}

/// Builds the entries of the map that inserting each pair in turn gives, a
/// later pair replacing an earlier one.
pub fn build_upsert(pairs: &Vec<Entry>) -> (r: Vec<Entry>)
    ensures
        represents(entries_view(r@), fold_upsert(entries_view(pairs@))),
{
    let ghost pv = entries_view(pairs@);
    let mut r: Vec<Entry> = Vec::new();
    proof {
        lemma_represents_empty::<Seq<Seq<char>>>();
        assert(entries_view(r@) =~= Seq::empty());
        assert(pv.take(0) =~= Seq::empty());
    }
    let mut i: usize = 0;
    while i < pairs.len()
        invariant
            pv == entries_view(pairs@),
            i <= pairs@.len(),
            represents(entries_view(r@), fold_upsert(pv.take(i as int))),
        decreases pairs.len() - i,
    {
        let k = copy_names(&pairs[i].0);
        let v = copy_names(&pairs[i].1);
        assert(pv.take(i + 1).drop_last() =~= pv.take(i as int));
        upsert(&mut r, k, v, Ghost(fold_upsert(pv.take(i as int))));
        i = i + 1;
    }
    assert(pv.take(i as int) =~= pv);
    r
}

/// The position of the entry with a key, added with a default value where
/// none has it.
fn find_or_insert(
    entries: &mut Vec<Entry>,
    key: Names,
    default: Names,
    Ghost(m): Ghost<Map<Seq<Seq<char>>, Seq<Seq<char>>>>,
) -> (idx: usize)
    requires
        represents(entries_view(old(entries)@), m),
    ensures
        idx < final(entries)@.len(),
        entries_view(final(entries)@)[idx as int].0 == names_view(key@),
        represents(
            entries_view(final(entries)@),
            if m.contains_key(names_view(key@)) {
                m
            } else {
                m.insert(names_view(key@), names_view(default@))
            },
        ),
{
    let (found, p) = locate(entries, &key);
    let ghost e = entries@;
    if found {
        p
    } else {
        proof {
            lemma_entries_view_insert(e, p as int, (key, default));
            lemma_represents_insert(entries_view(e), m, p as int, names_view(key@), names_view(default@));
        }
        entries.insert(p, (key, default));
        p
    }
}

/// Appends a name to the value of the entry at `idx`.
fn append_name(
    entries: &mut Vec<Entry>,
    idx: usize,
    name: Vec<char>,
    Ghost(m): Ghost<Map<Seq<Seq<char>>, Seq<Seq<char>>>>,
)
    requires
        represents(entries_view(old(entries)@), m),
        idx < old(entries)@.len(),
    ensures
        ({
            let k = entries_view(old(entries)@)[idx as int].0;
            represents(entries_view(final(entries)@), m.insert(k, m[k].push(name@)))
        }),
{
    let ghost e = entries@;
    let ghost ev = entries_view(e);
    let k = copy_names(&entries[idx].0);
    let mut v = copy_names(&entries[idx].1);
    let ghost before = v@;
    v.push(name);
    proof {
        assert(ev[idx as int].0 == names_view(e[idx as int].0@));
        assert(ev[idx as int].1 == names_view(e[idx as int].1@));
        assert(names_view(v@) =~= names_view(before).push(name@));
        lemma_entries_view_update(e, idx as int, (k, v));
        lemma_represents_update(ev, m, idx as int, names_view(v@));
    }
    entries.set(idx, (k, v));
}

/// Builds the entries of the map that inserting each pair in turn gives,
/// an earlier pair keeping its place against a later one.
pub fn build_first(pairs: &Vec<Entry>) -> (r: Vec<Entry>)
    ensures
        represents(entries_view(r@), fold_first(entries_view(pairs@))),
{
    let ghost pv = entries_view(pairs@);
    let mut r: Vec<Entry> = Vec::new();
    proof {
        lemma_represents_empty::<Seq<Seq<char>>>();
        assert(entries_view(r@) =~= Seq::empty());
        assert(pv.take(0) =~= Seq::empty());
    }
    let mut i: usize = 0;
    while i < pairs.len()
        invariant
            pv == entries_view(pairs@),
            i <= pairs@.len(),
            represents(entries_view(r@), fold_first(pv.take(i as int))),
        decreases pairs.len() - i,
    {
        let k = copy_names(&pairs[i].0);
        let v = copy_names(&pairs[i].1);
        assert(pv.take(i + 1).drop_last() =~= pv.take(i as int));
        let _ = find_or_insert(&mut r, k, v, Ghost(fold_first(pv.take(i as int))));
        i = i + 1;
    }
    assert(pv.take(i as int) =~= pv);
    r
}

/// A key and a name to file under it.
pub type Filing = (Names, Vec<char>);

/// The names of the keys and filed names of a list of filings.
pub open spec fn filings_view(p: Seq<Filing>) -> Seq<(Seq<Seq<char>>, Seq<char>)> {
    p.map_values(|f: Filing| (names_view(f.0@), f.1@))
}

/// Builds the entries of the map from each key to the names filed under
/// it, in order.
pub fn build_append(pairs: &Vec<Filing>) -> (r: Vec<Entry>)
    ensures
        represents(entries_view(r@), fold_append(filings_view(pairs@))),
{
    let ghost pv = filings_view(pairs@);
    let mut r: Vec<Entry> = Vec::new();
    proof {
        lemma_represents_empty::<Seq<Seq<char>>>();
        assert(entries_view(r@) =~= Seq::empty());
        assert(pv.take(0) =~= Seq::empty());
    }
    let mut i: usize = 0;
    while i < pairs.len()
        invariant
            pv == filings_view(pairs@),
            i <= pairs@.len(),
            represents(entries_view(r@), fold_append(pv.take(i as int))),
        decreases pairs.len() - i,
    {
        let ghost m = fold_append(pv.take(i as int));
        let k = copy_names(&pairs[i].0);
        let name = copy_vec(&pairs[i].1);
        let ghost kv = names_view(k@);
        assert(pv.take(i + 1).drop_last() =~= pv.take(i as int));
        assert(pv[i as int] == (kv, name@));
        let empty: Names = Vec::new();
        assert(names_view(empty@) =~= Seq::empty());
        let idx = find_or_insert(&mut r, k, empty, Ghost(m));
        let ghost m1 = if m.contains_key(kv) {
            m
        } else {
            m.insert(kv, Seq::empty())
        };
        append_name(&mut r, idx, name, Ghost(m1));
        proof {
            let before = if m.contains_key(kv) {
                m[kv]
            } else {
                Seq::empty()
            };
            assert(m1[kv] == before);
            assert(m1.insert(kv, before.push(name@)) =~= m.insert(kv, before.push(name@)));
        }
        i = i + 1;
    }
    assert(pv.take(i as int) =~= pv);
    r
}

/// A key of the map that `fold_upsert` builds is the key of one of the
/// pairs, and its value that pair's value.
pub proof fn lemma_fold_upsert_from(pairs: Seq<(Seq<Seq<char>>, Seq<Seq<char>>)>, k: Seq<Seq<char>>)
    requires
        fold_upsert(pairs).contains_key(k),
    ensures
        exists|i: int| 0 <= i < pairs.len() && pairs[i] == (k, fold_upsert(pairs)[k]),
    decreases pairs.len(),
{
    let n = pairs.len() - 1;
    if pairs[n].0 != k {
        lemma_fold_upsert_from(pairs.drop_last(), k);
        let i = choose|i: int| 0 <= i < pairs.drop_last().len() && pairs.drop_last()[i] == (k, fold_upsert(pairs.drop_last())[k]);
        assert(pairs[i] == (k, fold_upsert(pairs)[k]));
    } else {
        assert(pairs[n] == (k, fold_upsert(pairs)[k]));
    }
}

/// A key of the map that `fold_first` builds is the key of one of the
/// pairs, and its value that pair's value.
pub proof fn lemma_fold_first_from(pairs: Seq<(Seq<Seq<char>>, Seq<Seq<char>>)>, k: Seq<Seq<char>>)
    requires
        fold_first(pairs).contains_key(k),
    ensures
        exists|i: int| 0 <= i < pairs.len() && pairs[i] == (k, fold_first(pairs)[k]),
    decreases pairs.len(),
{
    let n = pairs.len() - 1;
    if fold_first(pairs.drop_last()).contains_key(k) {
        lemma_fold_first_from(pairs.drop_last(), k);
        let i = choose|i: int| 0 <= i < pairs.drop_last().len() && pairs.drop_last()[i] == (k, fold_first(pairs.drop_last())[k]);
        assert(pairs[i] == (k, fold_first(pairs)[k]));
    } else {
        assert(pairs[n] == (k, fold_first(pairs)[k]));
    }
}

/// A key of the map that `fold_append` builds is the key of one of the
/// pairs.
pub proof fn lemma_fold_append_from(pairs: Seq<(Seq<Seq<char>>, Seq<char>)>, k: Seq<Seq<char>>)
    requires
        fold_append(pairs).contains_key(k),
    ensures
        exists|i: int| 0 <= i < pairs.len() && pairs[i].0 == k,
    decreases pairs.len(),
{
    let n = pairs.len() - 1;
    if pairs[n].0 != k {
        lemma_fold_append_from(pairs.drop_last(), k);
        let i = choose|i: int| 0 <= i < pairs.drop_last().len() && pairs.drop_last()[i].0 == k;
        assert(pairs[i].0 == k);
    }
}

/// Appends the characters of one name to another.
pub fn append_chars(dst: &mut Vec<char>, src: &Vec<char>)
    ensures
        final(dst)@ == old(dst)@ + src@,
{
    let ghost start = dst@;
    let mut i: usize = 0;
    while i < src.len()
        invariant
            i <= src@.len(),
            dst@ == start + src@.take(i as int),
        decreases src.len() - i,
    {
        dst.push(src[i]);
        assert(start + src@.take(i + 1) =~= (start + src@.take(i as int)).push(src@[i as int]));
        i = i + 1;
    }
    assert(src@.take(i as int) =~= src@);
}

/// The characters of a list of names, one after another.
pub fn concat_names(v: &Names) -> (r: Vec<char>)
    ensures
        r@ == names_view(v@).flatten(),
{
    let mut r: Vec<char> = Vec::new();
    let mut i: usize = 0;
    assert(names_view(v@).take(0) =~= Seq::empty());
    while i < v.len()
        invariant
            i <= v@.len(),
            r@ == names_view(v@).take(i as int).flatten(),
        decreases v.len() - i,
    {
        append_chars(&mut r, &v[i]);
        proof {
            let t = names_view(v@).take(i as int);
            t.lemma_flatten_push(v@[i as int]@);
            assert(names_view(v@).take(i + 1) =~= t.push(v@[i as int]@));
        }
        i = i + 1;
    }
    assert(names_view(v@).take(i as int) =~= names_view(v@));
    r
}

} // verus!
