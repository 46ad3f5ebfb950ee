//! Snapshots of a tower: for each level its step count, the rightmost cell
//! its head has visited, its head position, its state and where its tape
//! differs from the infinite tape; and a tower rebuilt from a snapshot.
use vstd::prelude::*;

use crate::compiled::{position, CSymbol, CompiledTuringMachineSpec};
use crate::delta::{current_overwrites, lookup, strictly_sorted};
use crate::infinity::InfiniteTape;
use crate::tm::{RunningTuringMachine, TmConfig, TuringMachineSpec};
use crate::tower::{CompiledUtmSpec, Tower, TowerLevel};
use crate::utm::MyUtmSpec;
use crate::utm_symbols::{State, Symbol};

verus! {

/// One level of a snapshot.
pub struct TowerLevelJson {
    pub steps: u64,
    pub max_head_pos: usize,
    pub head_pos: usize,
    pub state: State,
    /// Where the level's tape differs from the infinite tape, positions
    /// strictly increasing.
    pub overwrites: Vec<(usize, Symbol)>,
}

/// A snapshot of a tower, base level first.
pub struct Snapshot {
    pub levels: Vec<TowerLevelJson>,
}

/// What a tape holds at position `p` where it differs from the infinite
/// tape.
pub open spec fn overwrite_at(tape: Seq<Symbol>, background: &InfiniteTape, p: usize) -> Option<Symbol> {
    if p < tape.len() && tape[p as int] != background.at(p as nat) {
        Some(tape[p as int])
    } else {
        None
    }
}

/// A level of a snapshot records a level with these counts and this
/// configuration.
pub open spec fn records(
    j: TowerLevelJson,
    steps: u64,
    max_head_pos: usize,
    c: TmConfig<State, Symbol>,
    background: &InfiniteTape,
) -> bool {
    &&& j.steps == steps
    &&& j.max_head_pos == max_head_pos
    &&& j.head_pos as nat == c.pos
    &&& j.state == c.state
    &&& strictly_sorted(j.overwrites@)
    &&& forall|p: usize| #[trigger] lookup(j.overwrites@, p) == overwrite_at(c.tape, background, p)
}

/// The snapshot of one level.
fn level_json(
    steps: u64,
    max_head_pos: usize,
    tm: &RunningTuringMachine<MyUtmSpec>,
    background: &InfiniteTape,
) -> (r: TowerLevelJson)
    requires
        background.inv(),
    ensures
        records(r, steps, max_head_pos, tm.config(), background),
{
    TowerLevelJson {
        steps,
        max_head_pos,
        head_pos: tm.pos,
        state: tm.state,
        overwrites: current_overwrites(tm.tape.as_slice(), background),
    }
}

/// The snapshot of a tower: the base level decompiled, then each level
/// above it.
pub fn build_snapshot(tower: &Tower, background: &InfiniteTape) -> (r: Snapshot)
    requires
        background.inv(),
        tower.base.tm.spec.valid_config(tower.base.tm.config()),
    ensures
        r.levels@.len() == tower.decoded@.len() + 1,
        records(
            r.levels@[0],
            tower.base.total_steps,
            tower.base.max_head_pos,
            tower.base.tm.spec.decompile_config(tower.base.tm.config()),
            background,
        ),
        forall|i: int|
            0 <= i < tower.decoded@.len() ==> records(
                #[trigger] r.levels@[i + 1],
                tower.decoded@[i].total_steps,
                tower.decoded@[i].max_head_pos,
                tower.decoded@[i].tm.config(),
                background,
            ),
{
    let mut levels: Vec<TowerLevelJson> = Vec::new();
    let base = tower.base.tm.spec.decompile(&tower.base.tm);
    levels.push(level_json(tower.base.total_steps, tower.base.max_head_pos, &base, background));
    let mut i: usize = 0;
    while i < tower.decoded.len()
        invariant
            background.inv(),
            i <= tower.decoded@.len(),
            levels@.len() == i + 1,
            records(
                levels@[0],
                tower.base.total_steps,
                tower.base.max_head_pos,
                tower.base.tm.spec.decompile_config(tower.base.tm.config()),
                background,
            ),
            forall|k: int|
                0 <= k < i ==> records(
                    #[trigger] levels@[k + 1],
                    tower.decoded@[k].total_steps,
                    tower.decoded@[k].max_head_pos,
                    tower.decoded@[k].tm.config(),
                    background,
                ),
        decreases tower.decoded.len() - i,
    {
        let l = &tower.decoded[i];
        levels.push(level_json(l.total_steps, l.max_head_pos, &l.tm, background));
        i = i + 1;
    }
    Snapshot { levels }
}

/// How far a tape rebuilt from a list of overwrites reaches: one past the
/// largest position.
pub open spec fn overwrites_end(list: Seq<(usize, Symbol)>) -> nat
    decreases list.len(),
{
    if list.len() == 0 {
        0
    } else {
        let rest = overwrites_end(list.drop_last());
        if rest >= list.last().0 + 1 {
            rest
        } else {
            (list.last().0 + 1) as nat
        }
    }
}

proof fn lemma_overwrites_end_bound(list: Seq<(usize, Symbol)>, k: int)
    requires
        0 <= k < list.len(),
    ensures
        list[k].0 < overwrites_end(list),
    decreases list.len(),
{
    if k < list.len() - 1 {
        lemma_overwrites_end_bound(list.drop_last(), k);
    }
}

proof fn lemma_overwrites_end_max(list: Seq<(usize, Symbol)>)
    ensures
        overwrites_end(list) <= usize::MAX + 1,
    decreases list.len(),
{
    if list.len() > 0 {
        lemma_overwrites_end_max(list.drop_last());
    }
}

proof fn lemma_lookup_within(list: Seq<(usize, Symbol)>, p: usize)
    requires
        lookup(list, p) is Some,
    ensures
        p < overwrites_end(list),
    decreases list.len(),
{
    if list.last().0 != p {
        lemma_lookup_within(list.drop_last(), p);
    }
}

/// The tape that the infinite tape gives with the overwrites applied, as
/// far as the last overwritten position; where two overwrites name the
/// same position, the later one stays.
pub fn tape_from_overwrites(overwrites: &Vec<(usize, Symbol)>, background: &InfiniteTape) -> (r: Vec<Symbol>)
    requires
        background.inv(),
        forall|k: int| 0 <= k < overwrites@.len() ==> (#[trigger] overwrites@[k]).0 < usize::MAX,
    ensures
        r@.len() == overwrites_end(overwrites@),
        forall|p: int|
            0 <= p < r@.len() ==> #[trigger] r@[p] == match lookup(overwrites@, p as usize) {
                Some(s) => s,
                None => background.at(p as nat),
            },
{
    let mut tape: Vec<Symbol> = Vec::new();
    let mut i: usize = 0;
    assert(overwrites@.take(0) =~= Seq::empty());
    while i < overwrites.len()
        invariant
            background.inv(),
            i <= overwrites@.len(),
            forall|k: int| 0 <= k < overwrites@.len() ==> (#[trigger] overwrites@[k]).0 < usize::MAX,
            tape@.len() == overwrites_end(overwrites@.take(i as int)),
            forall|p: int|
                0 <= p < tape@.len() ==> #[trigger] tape@[p] == match lookup(overwrites@.take(i as int), p as usize) {
                    Some(s) => s,
                    None => background.at(p as nat),
                },
        decreases overwrites.len() - i,
    {
        let (pos, sym) = overwrites[i];
        let ghost t = overwrites@.take(i as int);
        let ghost t1 = overwrites@.take(i + 1);
        assert(t1.drop_last() =~= t);
        assert(t1.last() == (pos, sym));
        let ghost before = tape@;
        background.extend(&mut tape, pos + 1);
        let tl = tape.len();
        proof {
            assert forall|p: int| 0 <= p < tl && p != pos implies #[trigger] tape@[p] == match lookup(t1, p as usize) {
                Some(s) => s,
                None => background.at(p as nat),
            } by {
                assert((p as usize) != pos);
                assert(lookup(t1, p as usize) == lookup(t, p as usize));
                if p >= before.len() {
                    if lookup(t, p as usize) is Some {
                        lemma_lookup_within(t, p as usize);
                    }
                }
            }
        }
        tape.set(pos, sym);
        i = i + 1;
    }
    assert(overwrites@.take(i as int) =~= overwrites@);
    tape
}

proof fn lemma_position_in<T>(s: Seq<T>, x: T)
    requires
        s.contains(x),
        s.len() <= 256,
    ensures
        0 <= position(s, x) < s.len(),
        (position(s, x) as u8) as int == position(s, x),
{
}

/// The compiled symbols of a tape.
fn compile_tape(spec: &CompiledUtmSpec, tape: &Vec<Symbol>) -> (r: Vec<CSymbol>)
    requires
        spec.compiles(),
        forall|y: Symbol| spec.original_symbols@.contains(y),
    ensures
        r@.len() == tape@.len(),
        forall|k: int| 0 <= k < r@.len() ==> spec.original_symbols@[(#[trigger] r@[k]).0 as int] == tape@[k],
        forall|k: int| 0 <= k < r@.len() ==> ((#[trigger] r@[k]).0 as int) < spec.original_symbols@.len(),
{
    let mut r: Vec<CSymbol> = Vec::new();
    let mut i: usize = 0;
    while i < tape.len()
        invariant
            spec.compiles(),
            forall|y: Symbol| spec.original_symbols@.contains(y),
            i <= tape@.len(),
            r@.len() == i,
            forall|k: int| 0 <= k < i ==> spec.original_symbols@[(#[trigger] r@[k]).0 as int] == tape@[k],
            forall|k: int| 0 <= k < i ==> ((#[trigger] r@[k]).0 as int) < spec.original_symbols@.len(),
        decreases tape.len() - i,
    {
        proof {
            lemma_position_in(spec.original_symbols@, tape@[i as int]);
        }
        let c = spec.compile_symbol(tape[i]);
        r.push(c);
        i = i + 1;
    }
    r
}

/// The overwrites of every level name positions below the largest
/// position.
pub open spec fn positions_bounded(snapshot: &Snapshot) -> bool {
    forall|i: int, k: int|
        0 <= i < snapshot.levels@.len() && 0 <= k < snapshot.levels@[i].overwrites@.len() ==> (
        #[trigger] snapshot.levels@[i].overwrites@[k]).0 < usize::MAX
}

/// The tape of a level that a snapshot records: the infinite tape with the
/// level's overwrites, as far as the last of them.
pub open spec fn restored_tape(j: TowerLevelJson, background: &InfiniteTape, p: int) -> Symbol {
    match lookup(j.overwrites@, p as usize) {
        Some(s) => s,
        None => background.at(p as nat),
    }
}

/// A level restored from a snapshot: its counts, head and state as
/// recorded, and its tape rebuilt from the overwrites.
pub open spec fn restored(
    j: TowerLevelJson,
    total_steps: u64,
    max_head_pos: usize,
    c: TmConfig<State, Symbol>,
    background: &InfiniteTape,
) -> bool {
    &&& total_steps == j.steps
    &&& max_head_pos == j.max_head_pos
    &&& c.pos == j.head_pos as nat
    &&& c.state == j.state
    &&& c.tape.len() == overwrites_end(j.overwrites@)
    &&& forall|p: int| 0 <= p < c.tape.len() ==> #[trigger] c.tape[p] == restored_tape(j, background, p)
}

/// Rebuilds a tower from a snapshot: the base level compiled with `spec`,
/// the levels above it running `spec`'s guest.
pub fn restore_tower<'a>(
    encoder: &'a crate::encoding::MyUtmSpecOptimizationHints<'a, MyUtmSpec>,
    spec: &'a CompiledUtmSpec<'a>,
    snapshot: &Snapshot,
    background: &InfiniteTape,
) -> (r: Tower<'a>)
    requires
        snapshot.levels@.len() >= 1,
        positions_bounded(snapshot),
        background.inv(),
        spec.compiles(),
        forall|s: State| spec.original_states@.contains(s),
        forall|y: Symbol| spec.original_symbols@.contains(y),
    ensures
        r.encoder == encoder,
        r.base.tm.spec == spec,
        spec.valid_config(r.base.tm.config()),
        restored(
            snapshot.levels@[0],
            r.base.total_steps,
            r.base.max_head_pos,
            spec.decompile_config(r.base.tm.config()),
            background,
        ),
        r.decoded@.len() == snapshot.levels@.len() - 1,
        forall|i: int|
            0 <= i < r.decoded@.len() ==> (#[trigger] r.decoded@[i]).tm.spec == spec.guest && restored(
                snapshot.levels@[i + 1],
                r.decoded@[i].total_steps,
                r.decoded@[i].max_head_pos,
                r.decoded@[i].tm.config(),
                background,
            ),
{
    let first = &snapshot.levels[0];
    assert(forall|k: int| 0 <= k < first.overwrites@.len() ==> (#[trigger] first.overwrites@[k]).0 < usize::MAX) by {
        assert forall|k: int| 0 <= k < first.overwrites@.len() implies (#[trigger] first.overwrites@[k]).0 < usize::MAX by {
            assert(snapshot.levels@[0].overwrites@[k] == first.overwrites@[k]);
        }
    }
    let base_tape = tape_from_overwrites(&first.overwrites, background);
    proof {
        lemma_position_in(spec.original_states@, first.state);
    }
    let state = spec.compile_state(first.state);
    let tape = compile_tape(spec, &base_tape);
    let tm = RunningTuringMachine { spec, state, pos: first.head_pos, tape };
    proof {
        let d = spec.decompile_config(tm.config());
        assert(d.tape =~= base_tape@);
    }
    let base = TowerLevel { tm, total_steps: first.steps, max_head_pos: first.max_head_pos };
    let mut decoded: Vec<TowerLevel<'a, MyUtmSpec>> = Vec::new();
    let mut i: usize = 1;
    while i < snapshot.levels.len()
        invariant
            1 <= i <= snapshot.levels@.len(),
            positions_bounded(snapshot),
            background.inv(),
            decoded@.len() == i - 1,
            forall|k: int|
                0 <= k < decoded@.len() ==> (#[trigger] decoded@[k]).tm.spec == spec.guest && restored(
                    snapshot.levels@[k + 1],
                    decoded@[k].total_steps,
                    decoded@[k].max_head_pos,
                    decoded@[k].tm.config(),
                    background,
                ),
        decreases snapshot.levels.len() - i,
    {
        let level = &snapshot.levels[i];
        assert forall|k: int| 0 <= k < level.overwrites@.len() implies (#[trigger] level.overwrites@[k]).0 < usize::MAX by {
            assert(snapshot.levels@[i as int].overwrites@[k] == level.overwrites@[k]);
        }
        let tape = tape_from_overwrites(&level.overwrites, background);
        let tm = RunningTuringMachine { spec: spec.guest, state: level.state, pos: level.head_pos, tape };
        decoded.push(TowerLevel { tm, total_steps: level.steps, max_head_pos: level.max_head_pos });
        i = i + 1;
    }
    Tower { encoder, base, decoded }
}

/// Law: restoring a level from its snapshot gives back its step count, the
/// rightmost position of its head, its head and its state; its tape comes
/// back as far as the last position where it differs from the infinite
/// tape, and past that the level's tape agrees with the infinite tape.
pub proof fn lemma_restore_snapshot(
    j: TowerLevelJson,
    steps: u64,
    max_head_pos: usize,
    c: TmConfig<State, Symbol>,
    restored_steps: u64,
    restored_max: usize,
    d: TmConfig<State, Symbol>,
    background: &InfiniteTape,
)
    requires
        records(j, steps, max_head_pos, c, background),
        restored(j, restored_steps, restored_max, d, background),
        c.tape.len() <= usize::MAX,
    ensures
        restored_steps == steps,
        restored_max == max_head_pos,
        d.state == c.state,
        d.pos == c.pos,
        forall|p: int|
            0 <= p < d.tape.len() ==> #[trigger] d.tape[p] == if p < c.tape.len() {
                c.tape[p]
            } else {
                background.at(p as nat)
            },
        forall|p: int| d.tape.len() <= p < c.tape.len() ==> #[trigger] c.tape[p] == background.at(p as nat),
{
    assert forall|p: int| 0 <= p < d.tape.len() implies #[trigger] d.tape[p] == if p < c.tape.len() {
        c.tape[p]
    } else {
        background.at(p as nat)
    } by {
        lemma_overwrites_end_max(j.overwrites@);
        assert(lookup(j.overwrites@, p as usize) == overwrite_at(c.tape, background, p as usize));
    }
    assert forall|p: int| d.tape.len() <= p < c.tape.len() implies #[trigger] c.tape[p] == background.at(p as nat) by {
        assert(lookup(j.overwrites@, p as usize) == overwrite_at(c.tape, background, p as usize));
        if lookup(j.overwrites@, p as usize) is Some {
            lemma_lookup_within(j.overwrites@, p as usize);
        }
    }
}

} // verus!
