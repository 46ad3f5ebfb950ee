//! Where a tape differs from the infinite tape, and what changed since a
//! client last looked.
//!
//! A set of overwrites is a list of positions and symbols, positions
//! strictly increasing.
use vstd::prelude::*;

use crate::infinity::InfiniteTape;
use crate::utm_symbols::Symbol;

verus! {

/// The positions of a list of overwrites strictly increase.
pub open spec fn strictly_sorted(list: Seq<(usize, Symbol)>) -> bool {
    forall|i: int, j: int| 0 <= i < j < list.len() ==> (#[trigger] list[i]).0 < (#[trigger] list[j]).0
}

/// The symbol that a list of overwrites gives position `p`, if any.
pub open spec fn lookup(list: Seq<(usize, Symbol)>, p: usize) -> Option<Symbol>
    decreases list.len(),
{
    if list.len() == 0 {
        None
    } else if list.last().0 == p {
        Some(list.last().1)
    } else {
        lookup(list.drop_last(), p)
    }
}

/// What a client must be sent for position `p`: the current overwrite
/// where it differs from what the client knows, and the infinite tape's
/// symbol where the client knows an overwrite that is gone.
pub open spec fn delta_at(
    current: Seq<(usize, Symbol)>,
    client: Seq<(usize, Symbol)>,
    background: Symbol,
    p: usize,
) -> Option<Symbol> {
    match (lookup(current, p), lookup(client, p)) {
        (Some(s), Some(k)) => if s == k {
            None
        } else {
            Some(s)
        },
        (Some(s), None) => Some(s),
        (None, Some(_)) => Some(background),
        (None, None) => None,
    }
}

proof fn lemma_lookup_absent(list: Seq<(usize, Symbol)>, p: usize)
    requires
        forall|k: int| 0 <= k < list.len() ==> (#[trigger] list[k]).0 != p,
    ensures
        lookup(list, p) == None::<Symbol>,
    decreases list.len(),
{
    if list.len() > 0 {
        assert forall|k: int| 0 <= k < list.drop_last().len() implies (#[trigger] list.drop_last()[k]).0 != p by {
            assert(list.drop_last()[k] == list[k]);
        }
        lemma_lookup_absent(list.drop_last(), p);
        assert(list.last() == list[list.len() - 1]);
    }
}

/// The positions where a tape differs from the infinite tape, with the
/// tape's symbols there.
pub fn current_overwrites(tape: &[Symbol], background: &InfiniteTape) -> (r: Vec<(usize, Symbol)>)
    requires
        background.inv(),
    ensures
        strictly_sorted(r@),
        forall|p: usize|
            #[trigger] lookup(r@, p) == if p < tape@.len() && tape@[p as int] != background.at(p as nat) {
                Some(tape@[p as int])
            } else {
                None
            },
{
    let n = tape.len();
    let bg = background.prefix(n);
    let mut r: Vec<(usize, Symbol)> = Vec::new();
    let mut i: usize = 0;
    while i < n
        invariant
            i <= n,
            n == tape@.len(),
            bg@.len() == n,
            forall|k: int| 0 <= k < n ==> #[trigger] bg@[k] == background.at(k as nat),
            strictly_sorted(r@),
            forall|k: int| 0 <= k < r@.len() ==> (#[trigger] r@[k]).0 < i,
            forall|p: usize|
                #[trigger] lookup(r@, p) == if p < i && tape@[p as int] != background.at(p as nat) {
                    Some(tape@[p as int])
                } else {
                    None
                },
        decreases n - i,
    {
        let ghost before = r@;
        if tape[i] != bg[i] {
            r.push((i, tape[i]));
            assert(r@.drop_last() =~= before);
        }
        proof {
            assert forall|p: usize|
                #[trigger] lookup(r@, p) == if p < i + 1 && tape@[p as int] != background.at(p as nat) {
                    Some(tape@[p as int])
                } else {
                    None
                } by {
                if p == i && r@.len() == before.len() {
                    assert(lookup(before, p) == None::<Symbol>);
                }
            }
        }
        i = i + 1;
    }
    r
}

/// What to send a client that knows the overwrites `client`, when the
/// tape's overwrites are `current`; the client then knows `current`.
/// The positions sent strictly increase.
pub fn compute_new_overwrites(
    current: &Vec<(usize, Symbol)>,
    client: &mut Vec<(usize, Symbol)>,
    background: &InfiniteTape,
) -> (r: Vec<(usize, Symbol)>)
    requires
        strictly_sorted(current@),
        strictly_sorted(old(client)@),
        background.inv(),
    ensures
        strictly_sorted(r@),
        forall|p: usize|
            #[trigger] lookup(r@, p) == delta_at(current@, old(client)@, background.at(p as nat), p),
        final(client)@ == current@,
{
    let cur = current;
    let cli = &*client;
    let mut out: Vec<(usize, Symbol)> = Vec::new();
    let mut i: usize = 0;
    let mut j: usize = 0;
    while i < cur.len() || j < cli.len()
        invariant
            i <= cur@.len(),
            j <= cli@.len(),
            strictly_sorted(cur@),
            strictly_sorted(cli@),
            background.inv(),
            strictly_sorted(out@),
            forall|k: int| 0 <= k < i ==> j < cli@.len() ==> (#[trigger] cur@[k]).0 < cli@[j as int].0,
            forall|k: int| 0 <= k < j ==> i < cur@.len() ==> (#[trigger] cli@[k]).0 < cur@[i as int].0,
            forall|k: int|
                0 <= k < out@.len() ==> (i < cur@.len() ==> (#[trigger] out@[k]).0 < cur@[i as int].0) && (j
                    < cli@.len() ==> out@[k].0 < cli@[j as int].0),
            forall|p: usize|
                #[trigger] lookup(out@, p) == delta_at(
                    cur@.take(i as int),
                    cli@.take(j as int),
                    background.at(p as nat),
                    p,
                ),
        decreases cur@.len() + cli@.len() - i - j,
    {
        let ghost before = out@;
        let ghost ct = cur@.take(i as int);
        let ghost lt = cli@.take(j as int);
        proof {
            assert forall|k: int| 0 <= k < ct.len() implies i < cur@.len() ==> (#[trigger] ct[k]).0 < cur@[i as int].0 by {
                assert(ct[k] == cur@[k]);
            }
            assert forall|k: int| 0 <= k < lt.len() implies j < cli@.len() ==> (#[trigger] lt[k]).0 < cli@[j as int].0 by {
                assert(lt[k] == cli@[k]);
            }
        }
        if j >= cli.len() || (i < cur.len() && cur[i].0 < cli[j].0) {
            // A position only the current overwrites have.
            let e = cur[i];
            out.push(e);
            proof {
                assert(out@.drop_last() =~= before);
                assert(cur@.take(i + 1) =~= ct.push(e));
                assert(ct.push(e).drop_last() =~= ct);
                assert(ct.push(e).last() == e);
                assert forall|k: int| 0 <= k < lt.len() implies (#[trigger] lt[k]).0 != e.0 by {
                    assert(lt[k] == cli@[k]);
                }
                lemma_lookup_absent(lt, e.0);
                assert forall|p: usize| #[trigger] lookup(out@, p) == delta_at(
                    cur@.take(i + 1),
                    lt,
                    background.at(p as nat),
                    p,
                ) by {
                    assert(lookup(cur@.take(i + 1), p) == if e.0 == p {
                        Some(e.1)
                    } else {
                        lookup(ct, p)
                    });
                    assert(out@.last() == e);
                    assert(lookup(before, p) == delta_at(ct, lt, background.at(p as nat), p));
                }
            }
            i = i + 1;
        } else if i >= cur.len() || cli[j].0 < cur[i].0 {
            // A position only the client knows: it goes back to the tape.
            let p0 = cli[j].0;
            let s = background.get(p0);
            out.push((p0, s));
            proof {
                assert(out@.drop_last() =~= before);
                assert(cli@.take(j + 1) =~= lt.push(cli@[j as int]));
                assert(lt.push(cli@[j as int]).drop_last() =~= lt);
                assert(lt.push(cli@[j as int]).last() == cli@[j as int]);
                assert forall|k: int| 0 <= k < ct.len() implies (#[trigger] ct[k]).0 != p0 by {
                    assert(ct[k] == cur@[k]);
                }
                lemma_lookup_absent(ct, p0);
                assert forall|p: usize| #[trigger] lookup(out@, p) == delta_at(
                    ct,
                    cli@.take(j + 1),
                    background.at(p as nat),
                    p,
                ) by {
                    assert(lookup(cli@.take(j + 1), p) == if p0 == p {
                        Some(cli@[j as int].1)
                    } else {
                        lookup(lt, p)
                    });
                    assert(out@.last() == (p0, s));
                    assert(lookup(before, p) == delta_at(ct, lt, background.at(p as nat), p));
                }
            }
            j = j + 1;
        } else {
            // A position both know.
            let e = cur[i];
            let known = cli[j];
            if e.1 != known.1 {
                out.push(e);
            }
            proof {
                if out@.len() > before.len() {
                    assert(out@.drop_last() =~= before);
                }
                assert(cur@.take(i + 1) =~= ct.push(e));
                assert(cli@.take(j + 1) =~= lt.push(known));
                assert(ct.push(e).drop_last() =~= ct);
                assert(lt.push(known).drop_last() =~= lt);
                assert forall|k: int| 0 <= k < ct.len() implies (#[trigger] ct[k]).0 != e.0 by {
                    assert(ct[k] == cur@[k]);
                }
                assert forall|k: int| 0 <= k < lt.len() implies (#[trigger] lt[k]).0 != e.0 by {
                    assert(lt[k] == cli@[k]);
                }
                lemma_lookup_absent(ct, e.0);
                lemma_lookup_absent(lt, e.0);
                assert forall|p: usize| #[trigger] lookup(out@, p) == delta_at(
                    cur@.take(i + 1),
                    cli@.take(j + 1),
                    background.at(p as nat),
                    p,
                ) by {
                    assert(lookup(cur@.take(i + 1), p) == if e.0 == p {
                        Some(e.1)
                    } else {
                        lookup(ct, p)
                    });
                    assert(lookup(cli@.take(j + 1), p) == if known.0 == p {
                        Some(known.1)
                    } else {
                        lookup(lt, p)
                    });
                    assert(lookup(before, p) == delta_at(ct, lt, background.at(p as nat), p));
                    if out@.len() > before.len() {
                        assert(out@.last() == e);
                        assert(lookup(out@, p) == if e.0 == p {
                            Some(e.1)
                        } else {
                            lookup(before, p)
                        });
                    } else {
                        assert(out@ == before);
                    }
                }
            }
            i = i + 1;
            j = j + 1;
        }
    }
    proof {
        assert(cur@.take(i as int) =~= cur@);
        assert(cli@.take(j as int) =~= cli@);
    }
    *client = crate::tm::copy_vec(current);
    out
}

/// What a list of overwrites shows at position `p`: its own symbol there,
/// else the infinite tape's.
pub open spec fn shown_at(list: Seq<(usize, Symbol)>, background: Symbol, p: usize) -> Symbol {
    match lookup(list, p) {
        Some(s) => s,
        None => background,
    }
}

/// Law: a client that shows the overwrites it knows and applies what it is
/// sent, position by position, shows the current overwrites everywhere.
pub proof fn lemma_delta_brings_client_up_to_date(
    current: Seq<(usize, Symbol)>,
    client: Seq<(usize, Symbol)>,
    background: Symbol,
    p: usize,
)
    ensures
        match delta_at(current, client, background, p) {
            Some(s) => s,
            None => shown_at(client, background, p),
        } == shown_at(current, background, p),
{
}

} // verus!
