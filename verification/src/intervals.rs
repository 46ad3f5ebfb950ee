//! Which transitions of the universal machine fire, and how often, between
//! two moves of the simulated head.  A run is cut into intervals, each
//! ending at a step that writes the head marker `^` from one of the states
//! that move the simulated head.
use vstd::prelude::*;

use crate::tm::{move_head, pad, pad_config, pad_tape, RunningTuringMachine, TmConfig, TuringMachineSpec};
use crate::utm::MyUtmSpec;
use crate::utm_symbols::{lemma_state_index_bound, lemma_symbol_index_bound, State, Symbol, N_UTM_STATES};
use crate::tm::Label;

verus! {

/// The number of pairs of a state and a symbol.
pub const N_KEYS: usize = 2720;

/// The most steps a traced run takes.
pub const MAX_TRACE_STEPS: usize = 200000000;

/// One step of a traced run: the state and symbol that it fires on,
/// whether it moves the simulated head (writes `^` from a head-moving
/// state), and whether an `X` or `Y` was on the tape when it fired.
pub struct TraceEvent {
    pub key: (State, Symbol),
    pub caret: bool,
    pub xy: bool,
}

/// `X` and `Y` mark bits that the machine is comparing.
pub open spec fn is_xy(y: Symbol) -> bool {
    y == Symbol::X || y == Symbol::Y
}

/// The number of `X` and `Y` on a tape.
pub open spec fn xy_count(tape: Seq<Symbol>) -> nat
    decreases tape.len(),
{
    if tape.len() == 0 {
        0
    } else {
        xy_count(tape.drop_last()) + if is_xy(tape.last()) {
            1nat
        } else {
            0nat
        }
    }
}

/// The states from which writing `^` moves the simulated head.
pub open spec fn moves_head(s: State) -> bool {
    s == State::MrSkipCell || s == State::MlMark || s == State::MrExtToBlank
}

/// The steps of a run of at most `fuel` steps from `c`, the tape grown
/// with blanks as the head reaches its end; the run ends where no rule
/// applies.
pub open spec fn trace(spec: &MyUtmSpec, c: TmConfig<State, Symbol>, fuel: nat) -> Seq<TraceEvent>
    decreases fuel,
{
    if fuel == 0 {
        Seq::empty()
    } else {
        let p = pad_config(spec, c);
        let y = p.tape[p.pos as int];
        match spec.spec_transition(p.state, y) {
            None => Seq::empty(),
            Some((ns, ny, d)) => seq![
                TraceEvent {
                    key: (p.state, y),
                    caret: ny == Symbol::Caret && moves_head(p.state),
                    xy: xy_count(p.tape) > 0,
                },
            ] + trace(
                spec,
                TmConfig { state: ns, pos: move_head(p.pos, d), tape: p.tape.update(p.pos as int, ny) },
                (fuel - 1) as nat,
            ),
        }
    }
}

/// The positions of the steps that move the simulated head.
pub open spec fn caret_positions(e: Seq<TraceEvent>) -> Seq<int>
    decreases e.len(),
{
    if e.len() == 0 {
        Seq::empty()
    } else {
        let r = caret_positions(e.drop_last());
        if e.last().caret {
            r.push(e.len() - 1)
        } else {
            r
        }
    }
}

/// Where interval `t` starts: after the step that ended interval `t - 1`.
pub open spec fn interval_start(e: Seq<TraceEvent>, t: int) -> int {
    if t == 0 {
        0
    } else {
        caret_positions(e)[t - 1] + 1
    }
}

/// The steps of interval `t`, up to and including the step that ends it.
pub open spec fn interval(e: Seq<TraceEvent>, t: int) -> Seq<TraceEvent> {
    e.subrange(interval_start(e, t), caret_positions(e)[t] + 1)
}

/// How many steps of a list fire on `key`.
pub open spec fn occurrences(s: Seq<TraceEvent>, key: (State, Symbol)) -> nat
    decreases s.len(),
{
    if s.len() == 0 {
        0
    } else {
        occurrences(s.drop_last(), key) + if s.last().key == key {
            1nat
        } else {
            0nat
        }
    }
}

/// Among the first `t` intervals, how many have `key` fire at all (`once`
/// false) or exactly once (`once` true).
pub open spec fn intervals_with(e: Seq<TraceEvent>, key: (State, Symbol), once: bool, t: nat) -> nat
    decreases t,
{
    if t == 0 {
        0
    } else {
        let n = occurrences(interval(e, t - 1), key);
        intervals_with(e, key, once, (t - 1) as nat) + if (once && n == 1) || (!once && n > 0) {
            1nat
        } else {
            0nat
        }
    }
}

/// Some step fires on `key` while an `X` or `Y` is on the tape.
pub open spec fn fired_with_xy(e: Seq<TraceEvent>, key: (State, Symbol)) -> bool {
    exists|j: int| 0 <= j < e.len() && (#[trigger] e[j]).key == key && e[j].xy
}

/// The table entry of a pair of a state and a symbol.
pub open spec fn key_index(s: State, y: Symbol) -> int {
    (s.spec_index() * 16 + y.spec_index()) as int
}

proof fn lemma_key_index(s: State, y: Symbol, s2: State, y2: Symbol)
    ensures
        0 <= key_index(s, y) < N_KEYS,
        key_index(s, y) == key_index(s2, y2) ==> s == s2 && y == y2,
{
    lemma_state_index_bound(s);
    lemma_symbol_index_bound(y);
    lemma_state_index_bound(s2);
    lemma_symbol_index_bound(y2);
    State::lemma_index_injective(s, s2);
    Symbol::lemma_index_injective(y, y2);
}

/// The table entry of a pair of a state and a symbol.
pub fn key_of(s: State, y: Symbol) -> (r: usize)
    ensures
        r as int == key_index(s, y),
        r < N_KEYS,
{
    proof {
        lemma_key_index(s, y, s, y);
    }
    s.index() * 16 + y.index()
}

proof fn lemma_xy_update(tape: Seq<Symbol>, p: int, v: Symbol)
    requires
        0 <= p < tape.len(),
    ensures
        xy_count(tape.update(p, v)) + (if is_xy(tape[p]) { 1int } else { 0int }) == xy_count(tape) + (if is_xy(v) {
            1int
        } else {
            0int
        }),
    decreases tape.len(),
{
    let u = tape.update(p, v);
    if p == tape.len() - 1 {
        assert(u.drop_last() =~= tape.drop_last());
    } else {
        lemma_xy_update(tape.drop_last(), p, v);
        assert(u.drop_last() =~= tape.drop_last().update(p, v));
    }
}

proof fn lemma_xy_blanks(tape: Seq<Symbol>, n: nat, b: Symbol)
    requires
        !is_xy(b),
    ensures
        xy_count(tape + Seq::new(n, |i: int| b)) == xy_count(tape),
    decreases n,
{
    if n > 0 {
        lemma_xy_blanks(tape, (n - 1) as nat, b);
        assert((tape + Seq::new(n, |i: int| b)).drop_last() =~= tape + Seq::new((n - 1) as nat, |i: int| b));
    } else {
        assert(tape + Seq::new(n, |i: int| b) =~= tape);
    }
}

proof fn lemma_xy_pad(tape: Seq<Symbol>, pos: nat, b: Symbol)
    requires
        !is_xy(b),
    ensures
        xy_count(pad_tape(tape, pos, b)) == xy_count(tape),
{
    if pos >= tape.len() {
        lemma_xy_blanks(tape, (pos + 1 - tape.len()) as nat, b);
    }
}

proof fn lemma_caret_positions_bound(e: Seq<TraceEvent>, t: int)
    requires
        0 <= t < caret_positions(e).len(),
    ensures
        0 <= caret_positions(e)[t] < e.len(),
        e[caret_positions(e)[t]].caret,
        t > 0 ==> caret_positions(e)[t - 1] < caret_positions(e)[t],
    decreases e.len(),
{
    let r = caret_positions(e.drop_last());
    if t < r.len() {
        lemma_caret_positions_bound(e.drop_last(), t);
        if t > 0 {
            lemma_caret_positions_bound(e.drop_last(), t - 1);
        }
    } else if t > 0 {
        lemma_caret_positions_bound(e.drop_last(), t - 1);
    }
}

/// The steps since the last head move.
pub open spec fn open_interval(e: Seq<TraceEvent>) -> Seq<TraceEvent> {
    e.subrange(interval_start(e, caret_positions(e).len() as int), e.len() as int)
}

proof fn lemma_push_event(e: Seq<TraceEvent>, ev: TraceEvent)
    ensures
        caret_positions(e.push(ev)) == if ev.caret {
            caret_positions(e).push(e.len() as int)
        } else {
            caret_positions(e)
        },
        forall|t: int| 0 <= t < caret_positions(e).len() ==> #[trigger] interval(e.push(ev), t) == interval(e, t),
        forall|key: (State, Symbol), once: bool, t: nat|
            t <= caret_positions(e).len() ==> #[trigger] intervals_with(e.push(ev), key, once, t) == intervals_with(
                e,
                key,
                once,
                t,
            ),
        !ev.caret ==> open_interval(e.push(ev)) == open_interval(e).push(ev),
        ev.caret ==> interval(e.push(ev), caret_positions(e).len() as int) == open_interval(e).push(ev),
        ev.caret ==> open_interval(e.push(ev)).len() == 0,
{
    let f = e.push(ev);
    assert(f.drop_last() =~= e);
    let cp = caret_positions(e);
    let n = cp.len() as int;
    if n > 0 {
        lemma_caret_positions_bound(e, n - 1);
    }
    assert forall|t: int| 0 <= t < n implies #[trigger] interval(f, t) == interval(e, t) by {
        lemma_caret_positions_bound(e, t);
        if t > 0 {
            lemma_caret_positions_bound(e, t - 1);
        }
        assert(caret_positions(f)[t] == cp[t]);
        if t > 0 {
            assert(caret_positions(f)[t - 1] == cp[t - 1]);
        }
        assert(interval(f, t) =~= interval(e, t));
    }
    assert forall|key: (State, Symbol), once: bool, t: nat| t <= n implies #[trigger] intervals_with(f, key, once, t)
        == intervals_with(e, key, once, t) by {
        lemma_intervals_with_prefix(e, ev, key, once, t);
    }
    if ev.caret {
        assert(interval(f, n) =~= open_interval(e).push(ev)) by {
            if n > 0 {
                assert(caret_positions(f)[n - 1] == cp[n - 1]);
            }
        }
        assert(open_interval(f).len() == 0);
    } else {
        assert(open_interval(f) =~= open_interval(e).push(ev)) by {
            if n > 0 {
                assert(caret_positions(f)[n - 1] == cp[n - 1]);
            }
        }
    }
}

proof fn lemma_intervals_with_prefix(e: Seq<TraceEvent>, ev: TraceEvent, key: (State, Symbol), once: bool, t: nat)
    requires
        t <= caret_positions(e).len(),
    ensures
        intervals_with(e.push(ev), key, once, t) == intervals_with(e, key, once, t),
    decreases t,
{
    if t > 0 {
        lemma_intervals_with_prefix(e, ev, key, once, (t - 1) as nat);
        let f = e.push(ev);
        assert(f.drop_last() =~= e);
        let s = t - 1;
        lemma_caret_positions_bound(e, s);
        if s > 0 {
            lemma_caret_positions_bound(e, s - 1);
        }
        assert(caret_positions(f)[s] == caret_positions(e)[s]);
        if s > 0 {
            assert(caret_positions(f)[s - 1] == caret_positions(e)[s - 1]);
        }
        assert(interval(f, s) =~= interval(e, s));
    }
}

proof fn lemma_occurrences_push(s: Seq<TraceEvent>, ev: TraceEvent, key: (State, Symbol))
    ensures
        occurrences(s.push(ev), key) == occurrences(s, key) + if ev.key == key {
            1nat
        } else {
            0nat
        },
{
    assert(s.push(ev).drop_last() =~= s);
}

proof fn lemma_occurrences_bound(s: Seq<TraceEvent>, key: (State, Symbol))
    ensures
        occurrences(s, key) <= s.len(),
    decreases s.len(),
{
    if s.len() > 0 {
        lemma_occurrences_bound(s.drop_last(), key);
    }
}

/// The number of `X` and `Y` on a tape.
fn count_xy(tape: &Vec<Symbol>) -> (r: usize)
    ensures
        r == xy_count(tape@),
{
    let mut r: usize = 0;
    let mut i: usize = 0;
    while i < tape.len()
        invariant
            i <= tape@.len(),
            r == xy_count(tape@.take(i as int)),
            r <= i,
        decreases tape.len() - i,
    {
        assert(tape@.take(i + 1).drop_last() =~= tape@.take(i as int));
        if tape[i] == Symbol::X || tape[i] == Symbol::Y {
            r = r + 1;
        }
        i = i + 1;
    }
    assert(tape@.take(i as int) =~= tape@);
    r
}

/// Ends an interval: each entry counts one more interval in which its
/// transition fired, and one more in which it fired exactly once, as the
/// counts of the interval say; the counts start again from zero.
fn close_interval(counts: &mut Vec<usize>, appearances: &mut Vec<usize>, once: &mut Vec<usize>, Ghost(bound): Ghost<nat>)
    requires
        old(counts)@.len() == N_KEYS,
        old(appearances)@.len() == N_KEYS,
        old(once)@.len() == N_KEYS,
        bound < MAX_TRACE_STEPS,
        forall|k: int| 0 <= k < N_KEYS ==> #[trigger] old(appearances)@[k] <= bound,
        forall|k: int| 0 <= k < N_KEYS ==> #[trigger] old(once)@[k] <= bound,
    ensures
        final(counts)@.len() == N_KEYS,
        final(appearances)@.len() == N_KEYS,
        final(once)@.len() == N_KEYS,
        forall|k: int| 0 <= k < N_KEYS ==> #[trigger] final(counts)@[k] == 0,
        forall|k: int|
            0 <= k < N_KEYS ==> #[trigger] final(appearances)@[k] == old(appearances)@[k] + if old(counts)@[k] > 0 {
                1int
            } else {
                0int
            },
        forall|k: int|
            0 <= k < N_KEYS ==> #[trigger] final(once)@[k] == old(once)@[k] + if old(counts)@[k] == 1 {
                1int
            } else {
                0int
            },
{
    let mut k: usize = 0;
    while k < N_KEYS
        invariant
            k <= N_KEYS,
            counts@.len() == N_KEYS,
            appearances@.len() == N_KEYS,
            once@.len() == N_KEYS,
            bound < MAX_TRACE_STEPS,
            forall|j: int| 0 <= j < k ==> #[trigger] counts@[j] == 0,
            forall|j: int| k <= j < N_KEYS ==> #[trigger] counts@[j] == old(counts)@[j],
            forall|j: int|
                0 <= j < k ==> #[trigger] appearances@[j] == old(appearances)@[j] + if old(counts)@[j] > 0 {
                    1int
                } else {
                    0int
                },
            forall|j: int| k <= j < N_KEYS ==> #[trigger] appearances@[j] == old(appearances)@[j],
            forall|j: int|
                0 <= j < k ==> #[trigger] once@[j] == old(once)@[j] + if old(counts)@[j] == 1 {
                    1int
                } else {
                    0int
                },
            forall|j: int| k <= j < N_KEYS ==> #[trigger] once@[j] == old(once)@[j],
            forall|j: int| 0 <= j < N_KEYS ==> #[trigger] old(appearances)@[j] <= bound,
            forall|j: int| 0 <= j < N_KEYS ==> #[trigger] old(once)@[j] <= bound,
        decreases N_KEYS - k,
    {
        let c = counts[k];
        if c > 0 {
            let a = appearances[k];
            appearances.set(k, a + 1);
        }
        if c == 1 {
            let o = once[k];
            once.set(k, o + 1);
        }
        counts.set(k, 0);
        k = k + 1;
    }
}

/// What a traced run comes to: for each pair of a state and a symbol
/// (entries indexed by `key_of`), the number of intervals in which its
/// transition fired, the number in which it fired exactly once, and
/// whether it ever fired with an `X` or `Y` on the tape; and the number of
/// intervals.
pub struct IntervalStats {
    pub appearances: Vec<usize>,
    pub exactly_once: Vec<usize>,
    pub total_intervals: usize,
    pub ever_had_xy: Vec<bool>,
}

/// The statistics of the run, over the steps `e`.
pub open spec fn describes(r: IntervalStats, e: Seq<TraceEvent>) -> bool {
    let t = caret_positions(e).len();
    &&& r.total_intervals == t
    &&& r.appearances@.len() == N_KEYS
    &&& r.exactly_once@.len() == N_KEYS
    &&& r.ever_had_xy@.len() == N_KEYS
    &&& forall|s: State, y: Symbol| #[trigger] r.appearances@[key_index(s, y)] == intervals_with(e, (s, y), false, t)
    &&& forall|s: State, y: Symbol| #[trigger] r.exactly_once@[key_index(s, y)] == intervals_with(e, (s, y), true, t)
    &&& forall|s: State, y: Symbol| #[trigger] r.ever_had_xy@[key_index(s, y)] == fired_with_xy(e, (s, y))
}

/// The running tables agree with the steps `d` taken so far.
pub open spec fn tallies(
    counts: Seq<usize>,
    appearances: Seq<usize>,
    once: Seq<usize>,
    xy: Seq<bool>,
    total: usize,
    d: Seq<TraceEvent>,
) -> bool {
    &&& counts.len() == N_KEYS
    &&& appearances.len() == N_KEYS
    &&& once.len() == N_KEYS
    &&& xy.len() == N_KEYS
    &&& total == caret_positions(d).len()
    &&& total <= d.len()
    &&& forall|s: State, y: Symbol| #[trigger] counts[key_index(s, y)] == occurrences(open_interval(d), (s, y))
    &&& forall|s: State, y: Symbol| #[trigger] appearances[key_index(s, y)] == intervals_with(d, (s, y), false, total as nat)
    &&& forall|s: State, y: Symbol| #[trigger] once[key_index(s, y)] == intervals_with(d, (s, y), true, total as nat)
    &&& forall|s: State, y: Symbol| #[trigger] xy[key_index(s, y)] == fired_with_xy(d, (s, y))
    &&& forall|k: int| 0 <= k < N_KEYS ==> #[trigger] counts[k] <= d.len()
    &&& forall|k: int| 0 <= k < N_KEYS ==> #[trigger] appearances[k] <= total
    &&& forall|k: int| 0 <= k < N_KEYS ==> #[trigger] once[k] <= total
}

/// Records one step in the tables.
fn record(
    counts: &mut Vec<usize>,
    appearances: &mut Vec<usize>,
    once: &mut Vec<usize>,
    xy: &mut Vec<bool>,
    total: &mut usize,
    state: State,
    sym: Symbol,
    caret: bool,
    xy_on: bool,
    Ghost(d): Ghost<Seq<TraceEvent>>,
)
    requires
        tallies(old(counts)@, old(appearances)@, old(once)@, old(xy)@, *old(total), d),
        d.len() < MAX_TRACE_STEPS,
    ensures
        tallies(
            final(counts)@,
            final(appearances)@,
            final(once)@,
            final(xy)@,
            *final(total),
            d.push(TraceEvent { key: (state, sym), caret, xy: xy_on }),
        ),
{
    let ghost ev = TraceEvent { key: (state, sym), caret, xy: xy_on };
    let ghost e = d.push(ev);
    proof {
        lemma_push_event(d, ev);
        assert(e.drop_last() =~= d);
    }
    let k = key_of(state, sym);
    let c = counts[k];
    counts.set(k, c + 1);
    if xy_on {
        xy.set(k, true);
    }
    proof {
        assert forall|s: State, y: Symbol| #[trigger] xy@[key_index(s, y)] == fired_with_xy(e, (s, y)) by {
            lemma_key_index(s, y, state, sym);
            if fired_with_xy(d, (s, y)) {
                let j = choose|j: int| 0 <= j < d.len() && (#[trigger] d[j]).key == (s, y) && d[j].xy;
                assert(e[j] == d[j]);
            }
            if (s, y) == (state, sym) && xy_on {
                assert(e[d.len() as int] == ev);
            }
            if fired_with_xy(e, (s, y)) {
                let j = choose|j: int| 0 <= j < e.len() && (#[trigger] e[j]).key == (s, y) && e[j].xy;
                if j < d.len() {
                    assert(e[j] == d[j]);
                }
            }
        }
        assert forall|s: State, y: Symbol| #[trigger] counts@[key_index(s, y)] == occurrences(
            open_interval(d).push(ev),
            (s, y),
        ) by {
            lemma_key_index(s, y, state, sym);
            lemma_occurrences_push(open_interval(d), ev, (s, y));
        }
        assert forall|kk: int| 0 <= kk < N_KEYS implies #[trigger] counts@[kk] <= e.len() by {}
    }
    if caret {
        let ghost before_counts = counts@;
        let ghost before_app = appearances@;
        let ghost before_once = once@;
        close_interval(counts, appearances, once, Ghost(*total as nat));
        *total = *total + 1;
        proof {
            let t = caret_positions(d).len();
            assert forall|s: State, y: Symbol| #[trigger] counts@[key_index(s, y)] == occurrences(open_interval(e), (s, y)) by {
                lemma_key_index(s, y, s, y);
                assert(open_interval(e) =~= Seq::<TraceEvent>::empty());
            }
            assert forall|s: State, y: Symbol| #[trigger] appearances@[key_index(s, y)] == intervals_with(e, (s, y), false, *total as nat) by {
                lemma_key_index(s, y, s, y);
                assert(before_counts[key_index(s, y)] == occurrences(interval(e, t as int), (s, y)));
                assert(intervals_with(e, (s, y), false, t) == intervals_with(d, (s, y), false, t));
            }
            assert forall|s: State, y: Symbol| #[trigger] once@[key_index(s, y)] == intervals_with(e, (s, y), true, *total as nat) by {
                lemma_key_index(s, y, s, y);
                assert(before_counts[key_index(s, y)] == occurrences(interval(e, t as int), (s, y)));
                assert(intervals_with(e, (s, y), true, t) == intervals_with(d, (s, y), true, t));
            }
        }
    } else {
        proof {
            let t = caret_positions(d).len();
            assert forall|s: State, y: Symbol| #[trigger] appearances@[key_index(s, y)] == intervals_with(e, (s, y), false, *total as nat) by {
                assert(intervals_with(e, (s, y), false, t) == intervals_with(d, (s, y), false, t));
            }
            assert forall|s: State, y: Symbol| #[trigger] once@[key_index(s, y)] == intervals_with(e, (s, y), true, *total as nat) by {
                assert(intervals_with(e, (s, y), true, t) == intervals_with(d, (s, y), true, t));
            }
        }
    }
}

proof fn lemma_xy_bound(tape: Seq<Symbol>)
    ensures
        xy_count(tape) <= tape.len(),
    decreases tape.len(),
{
    if tape.len() > 0 {
        lemma_xy_bound(tape.drop_last());
    }
}

/// A table of `n` zeros.
fn zeros(n: usize) -> (r: Vec<usize>)
    ensures
        r@.len() == n,
        forall|k: int| 0 <= k < n ==> #[trigger] r@[k] == 0,
{
    let mut r: Vec<usize> = Vec::new();
    while r.len() < n
        invariant
            r@.len() <= n,
            forall|k: int| 0 <= k < r@.len() ==> #[trigger] r@[k] == 0,
        decreases n - r@.len(),
    {
        r.push(0);
    }
    r
}

/// A table of `n` falses.
fn falses(n: usize) -> (r: Vec<bool>)
    ensures
        r@.len() == n,
        forall|k: int| 0 <= k < n ==> !#[trigger] r@[k],
{
    let mut r: Vec<bool> = Vec::new();
    while r.len() < n
        invariant
            r@.len() <= n,
            forall|k: int| 0 <= k < r@.len() ==> !#[trigger] r@[k],
        decreases n - r@.len(),
    {
        r.push(false);
    }
    r
}

/// Runs the machine from its initial state on `encoded` for at most
/// `MAX_TRACE_STEPS` steps or until it halts, and tallies which
/// transitions fire in each interval between two moves of the simulated
/// head.
pub fn analyze_machine(utm_spec: &MyUtmSpec, encoded: Vec<Symbol>) -> (r: IntervalStats)
    requires
        utm_spec.inv(),
        !is_xy(utm_spec.spec_blank()),
    ensures
        describes(
            r,
            trace(
                utm_spec,
                TmConfig { state: utm_spec.spec_initial(), pos: 0, tape: encoded@ },
                MAX_TRACE_STEPS as nat,
            ),
        ),
{
    let mut tm = RunningTuringMachine::new(utm_spec);
    tm.tape = encoded;
    let ghost c0 = tm.config();
    assert(c0 == TmConfig { state: utm_spec.spec_initial(), pos: 0nat, tape: encoded@ });
    let mut counts = zeros(N_KEYS);
    let mut appearances = zeros(N_KEYS);
    let mut once = zeros(N_KEYS);
    let mut xy = falses(N_KEYS);
    let mut total: usize = 0;
    let mut xy_now = count_xy(&tm.tape);
    let ghost mut d: Seq<TraceEvent> = Seq::empty();
    proof {
        let e = Seq::<TraceEvent>::empty();
        assert(caret_positions(e) =~= Seq::<int>::empty());
        assert(open_interval(e) =~= e);
        assert forall|s: State, y: Symbol| #[trigger] counts@[key_index(s, y)] == occurrences(open_interval(e), (s, y)) by {
            lemma_key_index(s, y, s, y);
        }
        assert forall|s: State, y: Symbol| #[trigger] appearances@[key_index(s, y)] == intervals_with(e, (s, y), false, 0) by {
            lemma_key_index(s, y, s, y);
        }
        assert forall|s: State, y: Symbol| #[trigger] once@[key_index(s, y)] == intervals_with(e, (s, y), true, 0) by {
            lemma_key_index(s, y, s, y);
        }
        assert forall|s: State, y: Symbol| #[trigger] xy@[key_index(s, y)] == fired_with_xy(e, (s, y)) by {
            lemma_key_index(s, y, s, y);
        }
        assert(trace(utm_spec, c0, MAX_TRACE_STEPS as nat) =~= e + trace(utm_spec, c0, MAX_TRACE_STEPS as nat));
    }
    let mut i: usize = 0;
    let mut halted = false;
    while i < MAX_TRACE_STEPS && !halted
        invariant
            tm.spec == utm_spec,
            utm_spec.inv(),
            !is_xy(utm_spec.spec_blank()),
            i <= MAX_TRACE_STEPS,
            d.len() <= i,
            tallies(counts@, appearances@, once@, xy@, total, d),
            xy_now == xy_count(tm.tape@),
            halted ==> trace(utm_spec, c0, MAX_TRACE_STEPS as nat) == d,
            !halted ==> d.len() == i && trace(utm_spec, c0, MAX_TRACE_STEPS as nat) == d + trace(
                utm_spec,
                tm.config(),
                (MAX_TRACE_STEPS - i) as nat,
            ),
        decreases MAX_TRACE_STEPS - i,
    {
        let ghost c = tm.config();
        pad(&mut tm);
        proof {
            lemma_xy_pad(c.tape, c.pos, utm_spec.spec_blank());
        }
        let state = tm.state;
        let pos = tm.pos;
        let len = tm.tape.len();
        assert(pos < len);
        let sym = tm.tape[pos];
        let ghost p = tm.config();
        match utm_spec.get_transition(state, sym) {
            None => {
                halted = true;
                proof {
                    assert(trace(utm_spec, c, (MAX_TRACE_STEPS - i) as nat) =~= Seq::<TraceEvent>::empty());
                    assert(d + Seq::<TraceEvent>::empty() =~= d);
                }
            },
            Some((ns, nsym, dir)) => {
                let caret = nsym == Symbol::Caret && (state == State::MrSkipCell || state == State::MlMark
                    || state == State::MrExtToBlank);
                let xy_on = xy_now > 0;
                let ghost ev = TraceEvent { key: (state, sym), caret, xy: xy_on };
                record(&mut counts, &mut appearances, &mut once, &mut xy, &mut total, state, sym, caret, xy_on, Ghost(d));
                proof {
                    lemma_xy_update(p.tape, pos as int, nsym);
                    lemma_xy_update(p.tape, pos as int, Symbol::Blank);
                    lemma_xy_bound(p.tape.update(pos as int, nsym));
                }
                if sym == Symbol::X || sym == Symbol::Y {
                    xy_now = xy_now - 1;
                }
                if nsym == Symbol::X || nsym == Symbol::Y {
                    xy_now = xy_now + 1;
                }
                tm.state = ns;
                tm.tape.set(pos, nsym);
                tm.pos = match dir {
                    crate::tm::Dir::Left => if pos == 0 { 0 } else { pos - 1 },
                    crate::tm::Dir::Right => pos + 1,
                };
                proof {
                    let next = TmConfig {
                        state: ns,
                        pos: move_head(p.pos, dir),
                        tape: p.tape.update(p.pos as int, nsym),
                    };
                    assert(tm.config() == next);
                    assert(trace(utm_spec, c, (MAX_TRACE_STEPS - i) as nat) == seq![ev] + trace(
                        utm_spec,
                        next,
                        (MAX_TRACE_STEPS - i - 1) as nat,
                    ));
                    assert(d + trace(utm_spec, c, (MAX_TRACE_STEPS - i) as nat) =~= d.push(ev) + trace(
                        utm_spec,
                        next,
                        (MAX_TRACE_STEPS - i - 1) as nat,
                    ));
                    d = d.push(ev);
                }
            },
        }
        i = i + 1;
    }
    proof {
        if !halted {
            assert(trace(utm_spec, tm.config(), 0) =~= Seq::<TraceEvent>::empty());
            assert(d + Seq::<TraceEvent>::empty() =~= d);
        }
    }
    IntervalStats { appearances, exactly_once: once, total_intervals: total, ever_had_xy: xy }
}

/// In every run, the transition of entry `k` fired exactly once in every
/// interval (and there was at least one) and never with an `X` or `Y` on
/// the tape.
pub open spec fn once_everywhere(stats: Seq<IntervalStats>, k: int) -> bool {
    forall|m: int|
        0 <= m < stats.len() ==> {
            let s = #[trigger] stats[m];
            &&& s.total_intervals > 0
            &&& !s.ever_had_xy@[k]
            &&& s.appearances@[k] == s.total_intervals
            &&& s.exactly_once@[k] == s.total_intervals
        }
}

/// The entries whose transitions fired exactly once in every interval of
/// every run and never with an `X` or `Y` on the tape, in increasing order.
pub fn once_in_every_interval(stats: &Vec<IntervalStats>) -> (r: Vec<usize>)
    requires
        forall|m: int|
            0 <= m < stats@.len() ==> {
                let s = #[trigger] stats@[m];
                &&& s.appearances@.len() == N_KEYS
                &&& s.exactly_once@.len() == N_KEYS
                &&& s.ever_had_xy@.len() == N_KEYS
            },
    ensures
        forall|i: int, j: int| 0 <= i < j < r@.len() ==> r@[i] < r@[j],
        forall|i: int| 0 <= i < r@.len() ==> #[trigger] r@[i] < N_KEYS && once_everywhere(stats@, r@[i] as int),
        forall|k: int| 0 <= k < N_KEYS && once_everywhere(stats@, k) ==> r@.contains(k as usize),
{
    let mut r: Vec<usize> = Vec::new();
    let mut k: usize = 0;
    while k < N_KEYS
        invariant
            k <= N_KEYS,
            forall|m: int|
                0 <= m < stats@.len() ==> {
                    let s = #[trigger] stats@[m];
                    &&& s.appearances@.len() == N_KEYS
                    &&& s.exactly_once@.len() == N_KEYS
                    &&& s.ever_had_xy@.len() == N_KEYS
                },
            forall|i: int, j: int| 0 <= i < j < r@.len() ==> r@[i] < r@[j],
            forall|i: int| 0 <= i < r@.len() ==> #[trigger] r@[i] < k && once_everywhere(stats@, r@[i] as int),
            forall|j: int| 0 <= j < k && once_everywhere(stats@, j) ==> r@.contains(j as usize),
        decreases N_KEYS - k,
    {
        let mut ok = true;
        let mut m: usize = 0;
        while m < stats.len()
            invariant
                k < N_KEYS,
                m <= stats@.len(),
                forall|q: int|
                    0 <= q < stats@.len() ==> {
                        let s = #[trigger] stats@[q];
                        &&& s.appearances@.len() == N_KEYS
                        &&& s.exactly_once@.len() == N_KEYS
                        &&& s.ever_had_xy@.len() == N_KEYS
                    },
                ok == forall|q: int|
                    0 <= q < m ==> {
                        let s = #[trigger] stats@[q];
                        &&& s.total_intervals > 0
                        &&& !s.ever_had_xy@[k as int]
                        &&& s.appearances@[k as int] == s.total_intervals
                        &&& s.exactly_once@[k as int] == s.total_intervals
                    },
            decreases stats.len() - m,
        {
            let s = &stats[m];
            let good = s.total_intervals > 0 && !s.ever_had_xy[k] && s.appearances[k] == s.total_intervals
                && s.exactly_once[k] == s.total_intervals;
            ok = ok && good;
            m = m + 1;
        }
        if ok {
            let ghost before = r@;
            r.push(k);
            proof {
                assert forall|j: int| 0 <= j < k + 1 && once_everywhere(stats@, j) implies r@.contains(j as usize) by {
                    if j < k {
                        let i = choose|i: int| 0 <= i < before.len() && before[i] == j as usize;
                        assert(r@[i] == j as usize);
                    } else {
                        assert(r@[before.len() as int] == k);
                    }
                }
            }
        } else {
            proof {
                assert forall|j: int| 0 <= j < k + 1 && once_everywhere(stats@, j) implies r@.contains(j as usize) by {
                    if j == k {
                        assert(!once_everywhere(stats@, j));
                    }
                }
            }
        }
        k = k + 1;
    }
    r
}

} // verus!
