//! A tower of universal machines: a compiled universal machine at the base
//! runs a universal machine, which runs another, and so on.  Each time a
//! level completes a simulated step, the level above is read back from its
//! tape; a new level is added on top when the highest one completes a step.
use vstd::prelude::*;

use crate::compiled::{CState, CSymbol, CompiledTuringMachineSpec};
use crate::encoding::{hash_positions, MyUtmSpecOptimizationHints};
use crate::tm::{
    copy_vec, extend_config, step, step_config, RunningTMStatus, RunningTuringMachine, TapeExtender, TmConfig,
    TuringMachineSpec,
};
use crate::utm::{spec_is_tick_boundary, MyUtmSpec};
use crate::utm_symbols::{State, Symbol};

verus! {

/// The universal machine, compiled.
pub type CompiledUtmSpec<'a> = CompiledTuringMachineSpec<'a, MyUtmSpec>;

impl<'a> CompiledTuringMachineSpec<'a, MyUtmSpec> {
    /// Whether going from `prev_state` to `state` completes a simulated step
    /// of the guest of the compiled universal machine.
    pub fn is_tick_boundary(&self, prev_state: CState, state: CState) -> (r: bool)
        requires
            (prev_state.0 as int) < self.original_states@.len(),
            (state.0 as int) < self.original_states@.len(),
        ensures
            r == spec_is_tick_boundary(
                self.original_states@[prev_state.0 as int],
                self.original_states@[state.0 as int],
            ),
    {
        let p = self.decompile_state(prev_state);
        let s = self.decompile_state(state);
        self.guest.is_tick_boundary(p, s)
    }
}

/// One level of a tower: a running machine, the number of steps it has
/// taken and the rightmost cell its head has been on.
pub struct TowerLevel<'a, Spec: TuringMachineSpec> {
    pub tm: RunningTuringMachine<'a, Spec>,
    pub total_steps: u64,
    pub max_head_pos: usize,
}

/// A tower: the compiled base machine and the levels read back above it,
/// lowest first.
pub struct Tower<'a> {
    pub encoder: &'a MyUtmSpecOptimizationHints<'a, MyUtmSpec>,
    pub base: TowerLevel<'a, CompiledUtmSpec<'a>>,
    pub decoded: Vec<TowerLevel<'a, MyUtmSpec>>,
}

/// What a level of the tower holds, as mathematical values.
pub struct LevelView {
    pub config: TmConfig<State, Symbol>,
    pub total_steps: nat,
    pub max_head_pos: nat,
}

pub open spec fn level_view(l: TowerLevel<MyUtmSpec>) -> LevelView {
    LevelView { config: l.tm.config(), total_steps: l.total_steps as nat, max_head_pos: l.max_head_pos as nat }
}

pub open spec fn levels_view(ls: Seq<TowerLevel<MyUtmSpec>>) -> Seq<LevelView> {
    ls.map_values(|l: TowerLevel<MyUtmSpec>| level_view(l))
}

pub open spec fn max_nat(a: nat, b: nat) -> nat {
    if a >= b {
        a
    } else {
        b
    }
}

/// The levels after the machine below level `i` has completed a step and
/// left `tape`: level `i` becomes what the tape holds, with one more step;
/// if that completes a step of level `i` too, the level above is read
/// from its tape in turn; past the highest level a new level is added,
/// with one step.  A tape that decoding cannot read, or that has fewer than
/// four `#`, stops the reading there.
pub open spec fn cascade(
    hints: &MyUtmSpecOptimizationHints<MyUtmSpec>,
    levels: Seq<LevelView>,
    i: nat,
    tape: Seq<Symbol>,
) -> Seq<LevelView>
    decreases levels.len() - i,
{
    if i > levels.len() || !hints.decodable(tape) || hash_positions(tape).len() < 4 {
        levels
    } else {
        let d = hints.decoded_config(tape);
        if i < levels.len() {
            let old = levels[i as int];
            let next = LevelView {
                config: d,
                total_steps: old.total_steps + 1,
                max_head_pos: max_nat(old.max_head_pos, d.pos),
            };
            let ls = levels.update(i as int, next);
            if spec_is_tick_boundary(old.config.state, d.state) {
                cascade(hints, ls, i + 1, d.tape)
            } else {
                ls
            }
        } else {
            levels.push(LevelView { config: d, total_steps: 1, max_head_pos: d.pos })
        }
    }
}

/// `max_nat` is the running maximum: at least each argument, and one of
/// them.
pub proof fn lemma_max_nat_is_max(a: nat, b: nat)
    ensures
        max_nat(a, b) >= a,
        max_nat(a, b) >= b,
        max_nat(a, b) == a || max_nat(a, b) == b,
{
}

/// Reading levels from `i` up leaves the levels below `i` as they were and
/// never drops a level.
pub proof fn lemma_cascade_keeps_below(
    hints: &MyUtmSpecOptimizationHints<MyUtmSpec>,
    levels: Seq<LevelView>,
    i: nat,
    tape: Seq<Symbol>,
)
    ensures
        cascade(hints, levels, i, tape).len() >= levels.len(),
        forall|j: int| 0 <= j < i && j < levels.len() ==> #[trigger] cascade(hints, levels, i, tape)[j] == levels[j],
    decreases levels.len() - i,
{
    if i > levels.len() || !hints.decodable(tape) || hash_positions(tape).len() < 4 {
    } else {
        let d = hints.decoded_config(tape);
        if i < levels.len() {
            let old = levels[i as int];
            let next = LevelView {
                config: d,
                total_steps: old.total_steps + 1,
                max_head_pos: max_nat(old.max_head_pos, d.pos),
            };
            let ls = levels.update(i as int, next);
            if spec_is_tick_boundary(old.config.state, d.state) {
                lemma_cascade_keeps_below(hints, ls, i + 1, d.tape);
            }
        }
    }
}

/// Reading a level that exists from a readable tape makes it the tape's
/// configuration, counts one more simulated step for it, and keeps the
/// rightmost head position it has seen.
pub proof fn lemma_cascade_rereads_level(
    hints: &MyUtmSpecOptimizationHints<MyUtmSpec>,
    levels: Seq<LevelView>,
    i: nat,
    tape: Seq<Symbol>,
)
    requires
        i < levels.len(),
        hints.decodable(tape),
        hash_positions(tape).len() >= 4,
    ensures
        cascade(hints, levels, i, tape)[i as int].config == hints.decoded_config(tape),
        cascade(hints, levels, i, tape)[i as int].total_steps == levels[i as int].total_steps + 1,
        cascade(hints, levels, i, tape)[i as int].max_head_pos >= levels[i as int].max_head_pos,
        cascade(hints, levels, i, tape)[i as int].max_head_pos >= hints.decoded_config(tape).pos,
        cascade(hints, levels, i, tape)[i as int].max_head_pos == levels[i as int].max_head_pos
            || cascade(hints, levels, i, tape)[i as int].max_head_pos == hints.decoded_config(tape).pos,
{
    let d = hints.decoded_config(tape);
    let old = levels[i as int];
    let next = LevelView { config: d, total_steps: old.total_steps + 1, max_head_pos: max_nat(old.max_head_pos, d.pos) };
    let ls = levels.update(i as int, next);
    lemma_max_nat_is_max(old.max_head_pos, d.pos);
    if spec_is_tick_boundary(old.config.state, d.state) {
        lemma_cascade_keeps_below(hints, ls, i + 1, d.tape);
        assert(cascade(hints, ls, i + 1, d.tape)[i as int] == ls[i as int]);
    }
}

/// The larger of two positions.
fn max_usize(a: usize, b: usize) -> (r: usize)
    ensures
        r as nat == max_nat(a as nat, b as nat),
{
    if a >= b {
        a
    } else {
        b
    }
}

/// Reads the levels back from `tape`, the tape of the machine below the
/// lowest level, after that machine has completed a step.
fn read_levels<'a>(
    encoder: &'a MyUtmSpecOptimizationHints<'a, MyUtmSpec>,
    decoded: &mut Vec<TowerLevel<'a, MyUtmSpec>>,
    tape: Vec<Symbol>,
)
    requires
        encoder.wf(),
        forall|j: int| 0 <= j < old(decoded)@.len() ==> (#[trigger] old(decoded)@[j]).total_steps < u64::MAX,
        forall|j: int| 0 <= j < old(decoded)@.len() ==> (#[trigger] old(decoded)@[j]).tm.spec == encoder.guest,
    ensures
        levels_view(final(decoded)@) == cascade(encoder, levels_view(old(decoded)@), 0, tape@),
        forall|j: int| 0 <= j < final(decoded)@.len() ==> (#[trigger] final(decoded)@[j]).tm.spec == encoder.guest,
{
    let ghost levels0 = levels_view(decoded@);
    let ghost tape0 = tape@;
    let mut cur: Vec<Symbol> = tape;
    let mut i: usize = 0;
    while i < decoded.len()
        invariant
            encoder.wf(),
            i <= decoded@.len(),
            decoded@.len() == old(decoded)@.len(),
            forall|j: int| i <= j < decoded@.len() ==> (#[trigger] decoded@[j]).total_steps < u64::MAX,
            forall|j: int| 0 <= j < decoded@.len() ==> (#[trigger] decoded@[j]).tm.spec == encoder.guest,
            levels0 == levels_view(old(decoded)@),
            tape0 == tape@,
            cascade(encoder, levels0, 0, tape0) == cascade(encoder, levels_view(decoded@), i as nat, cur@),
        decreases decoded.len() - i,
    {
        if !encoder.is_decodable(cur.as_slice()) {
            return;
        }
        match encoder.decode(cur.as_slice()) {
            Err(_) => {
                return;
            },
            Ok(tm) => {
                let ghost lv = levels_view(decoded@);
                let old_state = decoded[i].tm.state;
                let new_state = tm.state;
                let next_tape = copy_vec(&tm.tape);
                let level = TowerLevel {
                    total_steps: decoded[i].total_steps + 1,
                    max_head_pos: max_usize(decoded[i].max_head_pos, tm.pos),
                    tm,
                };
                assert(lv[i as int] == level_view(decoded@[i as int]));
                decoded.set(i, level);
                assert(levels_view(decoded@) =~= lv.update(i as int, level_view(level)));
                if !encoder.guest.is_tick_boundary(old_state, new_state) {
                    return;
                }
                cur = next_tape;
            },
        }
        i = i + 1;
    }
    if !encoder.is_decodable(cur.as_slice()) {
        return;
    }
    match encoder.decode(cur.as_slice()) {
        Err(_) => {},
        Ok(tm) => {
            let ghost lv = levels_view(decoded@);
            let level = TowerLevel { total_steps: 1, max_head_pos: tm.pos, tm };
            decoded.push(level);
            assert(levels_view(decoded@) =~= lv.push(level_view(level)));
        },
    }
}

/// What one step of the tower does: `post` and `r` are `pre` after one step
/// of the base machine, with the levels above read back where that step
/// completes a simulated step.
pub open spec fn stepped<'a>(pre: Tower<'a>, post: Tower<'a>, r: RunningTMStatus) -> bool {
    &&& post.encoder == pre.encoder
    &&& post.base.tm.spec == pre.base.tm.spec
    &&& post.base.tm.spec.valid_config(post.base.tm.config())
    &&& match step_config(pre.base.tm.spec, pre.base.tm.config()) {
        Some(c) => r == RunningTMStatus::Running && post.base.tm.config() == c,
        None => post.base.tm.config() == pre.base.tm.config() && r == (
        if pre.base.tm.spec.spec_accepting(pre.base.tm.state) {
            RunningTMStatus::Accepted
        } else {
            RunningTMStatus::Rejected
        }),
    }
    &&& post.base.total_steps == pre.base.total_steps + 1
    &&& post.base.max_head_pos as nat == max_nat(pre.base.max_head_pos as nat, post.base.tm.pos as nat)
    &&& ({
        let ss = pre.base.tm.spec.original_states@;
        if spec_is_tick_boundary(ss[pre.base.tm.state.0 as int], ss[post.base.tm.state.0 as int]) {
            levels_view(post.decoded@) == cascade(
                pre.encoder,
                levels_view(pre.decoded@),
                0,
                pre.base.tm.spec.decompile_config(post.base.tm.config()).tape,
            )
        } else {
            post.decoded@ == pre.decoded@
        }
    })
    &&& forall|i: int| 0 <= i < post.decoded@.len() ==> (#[trigger] post.decoded@[i]).tm.spec == pre.encoder.guest
}

/// A tower step keeps the base's rightmost head position: it is at least
/// what it was and at least the new head position, and one of the two.
pub proof fn lemma_step_keeps_rightmost<'a>(pre: Tower<'a>, post: Tower<'a>, r: RunningTMStatus)
    requires
        stepped(pre, post, r),
    ensures
        post.base.max_head_pos >= pre.base.max_head_pos,
        post.base.max_head_pos >= post.base.tm.pos,
        post.base.max_head_pos == pre.base.max_head_pos || post.base.max_head_pos == post.base.tm.pos,
        post.base.total_steps == pre.base.total_steps + 1,
{
    lemma_max_nat_is_max(pre.base.max_head_pos as nat, post.base.tm.pos as nat);
}

/// A tower step that completes a simulated step of the base, on a tape
/// that reads back, counts one more step for the first level above it and
/// makes that level what the tape holds.
pub proof fn lemma_tick_counts_a_step<'a>(pre: Tower<'a>, post: Tower<'a>, r: RunningTMStatus)
    requires
        stepped(pre, post, r),
        pre.decoded@.len() > 0,
        spec_is_tick_boundary(
            pre.base.tm.spec.original_states@[pre.base.tm.state.0 as int],
            pre.base.tm.spec.original_states@[post.base.tm.state.0 as int],
        ),
        pre.encoder.decodable(pre.base.tm.spec.decompile_config(post.base.tm.config()).tape),
        hash_positions(pre.base.tm.spec.decompile_config(post.base.tm.config()).tape).len() >= 4,
    ensures
        post.decoded@.len() >= pre.decoded@.len(),
        post.decoded@[0].total_steps == pre.decoded@[0].total_steps + 1,
        post.decoded@[0].tm.config() == pre.encoder.decoded_config(
            pre.base.tm.spec.decompile_config(post.base.tm.config()).tape,
        ),
        post.decoded@[0].max_head_pos >= pre.decoded@[0].max_head_pos,
        post.decoded@[0].max_head_pos >= post.decoded@[0].tm.pos,
{
    let tape = pre.base.tm.spec.decompile_config(post.base.tm.config()).tape;
    let lv = levels_view(pre.decoded@);
    lemma_cascade_rereads_level(pre.encoder, lv, 0, tape);
    lemma_cascade_keeps_below(pre.encoder, lv, 0, tape);
    assert(levels_view(post.decoded@)[0] == level_view(post.decoded@[0]));
    assert(lv[0] == level_view(pre.decoded@[0]));
}

impl<'a> Tower<'a> {
    /// A tower of one running compiled machine, no step taken yet.
    pub fn new(
        encoder: &'a MyUtmSpecOptimizationHints<'a, MyUtmSpec>,
        tm: RunningTuringMachine<'a, CompiledUtmSpec<'a>>,
    ) -> (r: Self)
        ensures
            r.encoder == encoder,
            r.base.tm == tm,
            r.base.total_steps == 0,
            r.base.max_head_pos == 0,
            r.decoded@.len() == 0,
    {
        Tower { encoder, base: TowerLevel { tm, total_steps: 0, max_head_pos: 0 }, decoded: Vec::new() }
    }

    /// The tower can take a step: the encoder and the base machine are
    /// sound, the base's head is on its tape, and no step count is at its
    /// limit.
    pub open spec fn ready(&self) -> bool {
        &&& self.encoder.wf()
        &&& self.base.tm.spec.compiles()
        &&& self.base.tm.spec.valid_config(self.base.tm.config())
        &&& self.base.tm.pos < self.base.tm.tape@.len()
        &&& self.base.total_steps < u64::MAX
        &&& forall|i: int| 0 <= i < self.decoded@.len() ==> (#[trigger] self.decoded@[i]).total_steps < u64::MAX
        &&& forall|i: int| 0 <= i < self.decoded@.len() ==> (#[trigger] self.decoded@[i]).tm.spec == self.encoder.guest
    }

    /// The tower can take a step once its base tape is grown to the head:
    /// `ready` but for the head being on the tape.
    pub open spec fn ready_to_extend(&self) -> bool {
        &&& self.encoder.wf()
        &&& self.base.tm.spec.compiles()
        &&& self.base.tm.spec.valid_config(self.base.tm.config())
        &&& self.base.tm.pos < usize::MAX
        &&& self.base.total_steps < u64::MAX
        &&& forall|i: int| 0 <= i < self.decoded@.len() ==> (#[trigger] self.decoded@[i]).total_steps < u64::MAX
        &&& forall|i: int| 0 <= i < self.decoded@.len() ==> (#[trigger] self.decoded@[i]).tm.spec == self.encoder.guest
    }

    /// Grows the base tape with the extender's cells until the head is on
    /// it, then takes one step of the tower.
    pub fn step_extending<E: TapeExtender<CSymbol>>(&mut self, extender: &mut E) -> (r: RunningTMStatus)
        requires
            old(self).ready_to_extend(),
            old(extender).can_extend(),
            forall|i: nat| (#[trigger] old(extender).cell(i).0 as int) < old(self).base.tm.spec.original_symbols@.len(),
        ensures
            final(extender).can_extend(),
            forall|i: nat| #[trigger] final(extender).cell(i) == old(extender).cell(i),
            exists|mid: Tower<'a>| {
                &&& mid.encoder == old(self).encoder
                &&& mid.base.tm.spec == old(self).base.tm.spec
                &&& mid.base.tm.config() == extend_config(old(self).base.tm.config(), |i: nat| old(extender).cell(i))
                &&& mid.base.total_steps == old(self).base.total_steps
                &&& mid.base.max_head_pos == old(self).base.max_head_pos
                &&& mid.decoded@ == old(self).decoded@
                &&& #[trigger] stepped(mid, *final(self), r)
            },
    {
        let ghost cell = |i: nat| extender.cell(i);
        if self.base.tm.pos >= self.base.tm.tape.len() {
            let min_size = self.base.tm.pos + 1;
            extender.extend(&mut self.base.tm.tape, min_size);
        }
        assert(self.base.tm.config() == extend_config(old(self).base.tm.config(), cell));
        let ghost mid = *self;
        proof {
            let t = self.base.tm.tape@;
            assert forall|k: int| 0 <= k < t.len() implies ((#[trigger] t[k]).0 as int) < self.base.tm.spec.original_symbols@.len() by {
                if k >= old(self).base.tm.tape@.len() {
                    assert(t[k] == cell((k) as nat));
                }
            }
        }
        let r = self.step();
        assert(stepped(mid, *self, r));
        r
    }

    /// Takes one step of the base machine; where that completes a simulated
    /// step, reads the levels above back from the tapes below them.
    pub fn step(&mut self) -> (r: RunningTMStatus)
        requires
            old(self).ready(),
        ensures
            stepped(*old(self), *final(self), r),
    {
        let prev_state = self.base.tm.state;
        proof {
            self.base.tm.spec.lemma_step_commutes(self.base.tm.config());
        }
        let res = step(&mut self.base.tm);
        self.base.total_steps = self.base.total_steps + 1;
        self.base.max_head_pos = max_usize(self.base.max_head_pos, self.base.tm.pos);
        if !self.base.tm.spec.is_tick_boundary(prev_state, self.base.tm.state) {
            return res;
        }
        let below = self.base.tm.spec.decompile(&self.base.tm);
        read_levels(self.encoder, &mut self.decoded, below.tape);
        res
    }
}

} // verus!
