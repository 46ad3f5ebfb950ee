//! The universal machine over the byte-numbered tape: its rules, built
//! phase by phase, and the header of the tape on which it simulates
//! itself.
use vstd::prelude::*;

use crate::byte_machine::{
    encode_spec, encode_tape, table_index, table_of, tape_cells, cells_code, cell_code, State, Symbol,
    TuringMachineSpec, N_SYMBOLS, SYM_BLANK, SYM_CARET, SYM_COMMA, SYM_D, SYM_DOLLAR, SYM_DOT, SYM_GT, SYM_HASH,
    SYM_L, SYM_ONE, SYM_PIPE, SYM_SEMI, SYM_STAR, SYM_X, SYM_Y, SYM_ZERO, TABLE_ENTRIES,
};
use crate::tm::Dir;

verus! {

/// The number of states of the universal machine.
pub const N_UTM_STATES: usize = 166;

// The states of the universal machine, by number.
pub const ACC_FINAL_HOME: u8 = 0;
pub const ACC_REST_ACC: u8 = 1;
pub const ACC_REST_STATE: u8 = 2;
pub const ACCEPT: u8 = 3;
pub const ACCEPT_SEEK_HOME: u8 = 4;
pub const CHK_ACC_BACK2ACC: u8 = 5;
pub const CHK_ACC_C0: u8 = 6;
pub const CHK_ACC_C0_FIND: u8 = 7;
pub const CHK_ACC_C1: u8 = 8;
pub const CHK_ACC_C1_FIND: u8 = 9;
pub const CHK_ACC_DO_REST: u8 = 10;
pub const CHK_ACC_DO_REST2: u8 = 11;
pub const CHK_ACC_FAIL_BIT: u8 = 12;
pub const CHK_ACC_INIT: u8 = 13;
pub const CHK_ACC_INTO_ACC: u8 = 14;
pub const CHK_ACC_NEXT_ENTRY: u8 = 15;
pub const CHK_ACC_OK: u8 = 16;
pub const CHK_ACC_OK_ACC: u8 = 17;
pub const CHK_ACC_OK_FIND: u8 = 18;
pub const CHK_ACC_OK_SKIP: u8 = 19;
pub const CHK_ACC_REST_STATE: u8 = 20;
pub const MARK_RULE_NO_MATCH: u8 = 21;
pub const ML_FIND_HEAD: u8 = 22;
pub const ML_MARK: u8 = 23;
pub const ML_NAV: u8 = 24;
pub const ML_RESTORE: u8 = 25;
pub const ML_S1: u8 = 26;
pub const ML_S2: u8 = 27;
pub const ML_S3: u8 = 28;
pub const MOVE_LEFT: u8 = 29;
pub const MR_EXT_BC_NEXT: u8 = 30;
pub const MR_EXT_BC_RET: u8 = 31;
pub const MR_EXT_BC0: u8 = 32;
pub const MR_EXT_BC1: u8 = 33;
pub const MR_EXT_H1: u8 = 34;
pub const MR_EXT_H2: u8 = 35;
pub const MR_EXT_H3: u8 = 36;
pub const MR_EXT_HOME: u8 = 37;
pub const MR_EXT_READ_BLANK: u8 = 38;
pub const MR_EXT_REST_BLANK: u8 = 39;
pub const MR_EXT_TO_BLANK: u8 = 40;
pub const MR_EXT_WRITE_HEAD: u8 = 41;
pub const MR_EXTEND_INIT: u8 = 42;
pub const REJ_FINAL_HOME: u8 = 43;
pub const REJ_REST_ACC: u8 = 44;
pub const REJ_REST_STATE: u8 = 45;
pub const REJECT: u8 = 46;
pub const REJECT_SEEK_HOME: u8 = 47;
pub const STF_SKIP_REST: u8 = 48;
pub const SYMF_SKIP_REST: u8 = 49;
pub const INIT_SKIP: u8 = 50;
pub const APPLY_READ_NST: u8 = 51;
pub const CP_NSYM_READ: u8 = 52;
pub const INIT: u8 = 53;
pub const RD_READ: u8 = 54;
pub const CP_NSYM_C1_FB: u8 = 55;
pub const CP_NSYM_DONE: u8 = 56;
pub const CP_NSYM_NAV2: u8 = 57;
pub const CP_NSYM_RN_DO: u8 = 58;
pub const CP_NSYM_RN_S3: u8 = 59;
pub const MR_PLACE_HEAD: u8 = 60;
pub const MR_S3: u8 = 61;
pub const MR_SKIP_CELL: u8 = 62;
pub const RD_SK2: u8 = 63;
pub const RD_SK4: u8 = 64;
pub const SMC_REST_HEAD: u8 = 65;
pub const SMC_REST_SYM: u8 = 66;
pub const SMC_S3: u8 = 67;
pub const CP_NSYM_C0_FB: u8 = 68;
pub const CP_NSYM_C1_S3: u8 = 69;
pub const CMP_SYM_READ: u8 = 70;
pub const ST_MATCH_CLEANUP: u8 = 71;
pub const STM_GO_LEFT: u8 = 72;
pub const CP_NST_DONE: u8 = 73;
pub const CP_NST_REST_DO: u8 = 74;
pub const CP_NST_REST_S1: u8 = 75;
pub const CP_NSYM_NAV: u8 = 76;
pub const CP_NSYM_NAV3: u8 = 77;
pub const CP_NSYM_RN_S1: u8 = 78;
pub const CP_NSYM_RN_S2: u8 = 79;
pub const MR_S1: u8 = 80;
pub const MR_S2: u8 = 81;
pub const RD_SK3: u8 = 82;
pub const RD_SKIP_TO_DIR: u8 = 83;
pub const SMC_S1: u8 = 84;
pub const SMC_S2: u8 = 85;
pub const SMC_SKIP_ST: u8 = 86;
pub const CP_NSYM_C1_S1: u8 = 87;
pub const CP_NSYM_C1_S2: u8 = 88;
pub const CMP_SYM_C0_FB: u8 = 89;
pub const CP_NSYM_C0_S3: u8 = 90;
pub const CMP_SYM_FAIL: u8 = 91;
pub const CP_NSYM_FN4: u8 = 92;
pub const CP_NST_C1_W: u8 = 93;
pub const CP_NST_C0_W: u8 = 94;
pub const CMP_SYM_C1_FB: u8 = 95;
pub const CP_NSYM_FN2: u8 = 96;
pub const CP_NSYM_C0_S1: u8 = 97;
pub const CP_NSYM_C0_S2: u8 = 98;
pub const MOVE_RIGHT: u8 = 99;
pub const CMP_SYM_NB2: u8 = 100;
pub const CP_NST_C1_S1: u8 = 101;
pub const CP_NSYM_FN3: u8 = 102;
pub const CP_NSYM_FNEXT: u8 = 103;
pub const CP_NST_C0_S1: u8 = 104;
pub const SYMF_REST_HEAD: u8 = 105;
pub const SYMF_REST_SYM: u8 = 106;
pub const CP_NST_NEXT2: u8 = 107;
pub const CMP_SYM_C0_S3: u8 = 108;
pub const CP_NST_NEXT3: u8 = 109;
pub const CMP_SYM_C1_S3: u8 = 110;
pub const SYMF_SKIP_ST: u8 = 111;
pub const CP_NST_NEXT: u8 = 112;
pub const STM_GS_SK1: u8 = 113;
pub const STM_RESTORE_RULE: u8 = 114;
pub const STM_RESTORE_STATE: u8 = 115;
pub const SYM_SKIP_STATE: u8 = 116;
pub const CMP_SYM_C0_S1: u8 = 117;
pub const CMP_SYM_C0_S2: u8 = 118;
pub const CMP_SYM_C1_S1: u8 = 119;
pub const CMP_SYM_C1_S2: u8 = 120;
pub const CMP_SYM_NEXTBIT: u8 = 121;
pub const SYMF_DEACTIVATE: u8 = 122;
pub const CMP_ST_READ: u8 = 123;
pub const CMP_ST_FAIL: u8 = 124;
pub const CMP_ST_C0_FIND: u8 = 125;
pub const STF_GO_PREV: u8 = 126;
pub const STF_RESTORE_RULE: u8 = 127;
pub const STF_RESTORE_STATE: u8 = 128;
pub const CMP_ST_C1_FIND: u8 = 129;
pub const CMP_ST_NEXTBIT: u8 = 130;
pub const CMP_ST_C0_SK1: u8 = 131;
pub const CP_NSYM_RN_FH: u8 = 132;
pub const MR_FIND_HEAD: u8 = 133;
pub const SMC_FH: u8 = 134;
pub const CP_NSYM_C1_FH: u8 = 135;
pub const CMP_ST_C1_SK1: u8 = 136;
pub const CP_NSYM_REST_NAV: u8 = 137;
pub const CP_NST_REST_NAV: u8 = 138;
pub const SYM_MATCH_CLEANUP: u8 = 139;
pub const MARK_RULE: u8 = 140;
pub const MR_NAV: u8 = 141;
pub const CP_NSYM_SEEK: u8 = 142;
pub const CP_NSYM_C1: u8 = 143;
pub const CP_NSYM_C0_FH: u8 = 144;
pub const READ_DIR: u8 = 145;
pub const SMC_REST_DONE: u8 = 146;
pub const CP_NSYM_C0: u8 = 147;
pub const CP_NST_C1: u8 = 148;
pub const CP_NST_C0: u8 = 149;
pub const CMP_SYM_C0_FH: u8 = 150;
pub const CMP_SYM_C1_FH: u8 = 151;
pub const INIT_SEEK_END: u8 = 152;
pub const CP_NSYM_RET: u8 = 153;
pub const DONE_SEEK_HOME: u8 = 154;
pub const CP_NST_RET: u8 = 155;
pub const STM_GOTO_STATE: u8 = 156;
pub const STM_BACK_TO_RULE: u8 = 157;
pub const CMP_SYM_C0: u8 = 158;
pub const CMP_SYM_C1: u8 = 159;
pub const SYMF_SEEK_STAR: u8 = 160;
pub const CMP_SYM_OK: u8 = 161;
pub const STF_FIND_STAR: u8 = 162;
pub const CMP_ST_C0: u8 = 163;
pub const CMP_ST_C1: u8 = 164;
pub const CMP_ST_OK: u8 = 165;

/// A rule: state, symbol, new state, new symbol, direction.
pub type ByteRule = (State, Symbol, State, Symbol, Dir);

/// Whether some rule of a list is for state `s` and symbol `y`.
pub open spec fn has_key(rules: Seq<ByteRule>, s: State, y: Symbol) -> bool {
    exists|i: int| 0 <= i < rules.len() && (#[trigger] rules[i]).0 == s && rules[i].1 == y
}

/// No two rules of a list are for the same state and symbol.
pub open spec fn keys_distinct(rules: Seq<ByteRule>) -> bool {
    forall|i: int, j: int|
        0 <= i < j < rules.len() ==> !((#[trigger] rules[i]).0 == (#[trigger] rules[j]).0 && rules[i].1
            == rules[j].1)
}

/// The rules that keep the state and the symbol of each listed symbol and
/// move in one direction.
pub open spec fn scan_rules(state: State, syms: Seq<Symbol>, dir: Dir) -> Seq<ByteRule> {
    syms.map_values(|y: Symbol| (state, y, state, y, dir))
}

/// No rule of the list is for one of the states.
pub open spec fn fresh_for(rules: Seq<ByteRule>, states: Set<State>) -> bool {
    forall|i: int| 0 <= i < rules.len() ==> !states.contains(#[trigger] rules[i].0)
}

/// `new` is `old` followed by rules for the given states only.
pub open spec fn grown_by(old: Seq<ByteRule>, new: Seq<ByteRule>, states: Set<State>) -> bool {
    &&& old.len() <= new.len()
    &&& forall|i: int| 0 <= i < old.len() ==> #[trigger] new[i] == old[i]
    &&& forall|i: int| old.len() <= i < new.len() ==> states.contains(#[trigger] new[i].0)
}

/// The rules of a list are distinct in state and symbol, and all belong
/// to blocks before `k`.
pub open spec fn built_before(rules: Seq<ByteRule>, k: nat) -> bool {
    &&& keys_distinct(rules)
    &&& forall|i: int| 0 <= i < rules.len() ==> block_of(#[trigger] rules[i].0) < k
}

/// The block of the rule builder that gives the rules of a state; the
/// halting states have none.
pub open spec fn block_of(s: State) -> nat {
    if s.0 == INIT_SKIP || s.0 == INIT || s.0 == INIT_SEEK_END {
        0
    } else if s.0 == MARK_RULE_NO_MATCH || s.0 == MARK_RULE {
        1
    } else if s.0 == CMP_ST_READ || s.0 == CMP_ST_C0_FIND || s.0 == CMP_ST_C1_FIND || s.0 == CMP_ST_C0_SK1 || s.0 == CMP_ST_C1_SK1 || s.0 == CMP_ST_C0 || s.0 == CMP_ST_C1 {
        2
    } else if s.0 == CMP_ST_NEXTBIT || s.0 == CMP_ST_OK {
        3
    } else if s.0 == ST_MATCH_CLEANUP || s.0 == STM_GO_LEFT || s.0 == STM_GS_SK1 || s.0 == STM_RESTORE_RULE || s.0 == STM_RESTORE_STATE || s.0 == SYM_SKIP_STATE || s.0 == STM_GOTO_STATE || s.0 == STM_BACK_TO_RULE {
        4
    } else if s.0 == CMP_ST_FAIL || s.0 == STF_GO_PREV || s.0 == STF_RESTORE_RULE || s.0 == STF_RESTORE_STATE || s.0 == STF_FIND_STAR {
        5
    } else if s.0 == CMP_SYM_READ || s.0 == CMP_SYM_C0_FB || s.0 == CMP_SYM_C1_FB || s.0 == CMP_SYM_C0_S3 || s.0 == CMP_SYM_C1_S3 || s.0 == CMP_SYM_C0_S1 || s.0 == CMP_SYM_C0_S2 || s.0 == CMP_SYM_C1_S1 || s.0 == CMP_SYM_C1_S2 || s.0 == CMP_SYM_C0_FH || s.0 == CMP_SYM_C1_FH || s.0 == CMP_SYM_C0 || s.0 == CMP_SYM_C1 {
        6
    } else if s.0 == CMP_SYM_NB2 || s.0 == CMP_SYM_NEXTBIT || s.0 == CMP_SYM_OK {
        7
    } else if s.0 == CMP_SYM_FAIL || s.0 == SYMF_REST_HEAD || s.0 == SYMF_REST_SYM || s.0 == SYMF_SKIP_ST || s.0 == SYMF_DEACTIVATE || s.0 == SYMF_SEEK_STAR {
        8
    } else if s.0 == SMC_S3 || s.0 == SMC_S1 || s.0 == SMC_S2 || s.0 == SYM_MATCH_CLEANUP {
        9
    } else if s.0 == SMC_REST_HEAD || s.0 == SMC_REST_SYM || s.0 == SMC_SKIP_ST || s.0 == SMC_FH || s.0 == SMC_REST_DONE {
        10
    } else if s.0 == APPLY_READ_NST || s.0 == CP_NST_C1_W || s.0 == CP_NST_C0_W || s.0 == CP_NST_C1_S1 || s.0 == CP_NST_C0_S1 || s.0 == CP_NST_NEXT2 || s.0 == CP_NST_NEXT3 || s.0 == CP_NST_NEXT || s.0 == CP_NST_C1 || s.0 == CP_NST_C0 || s.0 == CP_NST_RET {
        11
    } else if s.0 == CP_NST_DONE || s.0 == CP_NST_REST_DO || s.0 == CP_NST_REST_S1 || s.0 == CP_NST_REST_NAV || s.0 == CP_NSYM_SEEK {
        12
    } else if s.0 == CP_NSYM_READ || s.0 == CP_NSYM_NAV2 || s.0 == CP_NSYM_NAV || s.0 == CP_NSYM_NAV3 {
        13
    } else if s.0 == CP_NSYM_C1_FB || s.0 == CP_NSYM_C0_FB || s.0 == CP_NSYM_C1_S3 || s.0 == CP_NSYM_C1_S1 || s.0 == CP_NSYM_C1_S2 || s.0 == CP_NSYM_C0_S3 || s.0 == CP_NSYM_FN4 || s.0 == CP_NSYM_FN2 || s.0 == CP_NSYM_C0_S1 || s.0 == CP_NSYM_C0_S2 || s.0 == CP_NSYM_FN3 || s.0 == CP_NSYM_FNEXT || s.0 == CP_NSYM_C1_FH || s.0 == CP_NSYM_C1 || s.0 == CP_NSYM_C0_FH || s.0 == CP_NSYM_C0 || s.0 == CP_NSYM_RET {
        14
    } else if s.0 == CP_NSYM_DONE || s.0 == CP_NSYM_RN_DO || s.0 == CP_NSYM_RN_S3 || s.0 == CP_NSYM_RN_S1 || s.0 == CP_NSYM_RN_S2 || s.0 == CP_NSYM_RN_FH || s.0 == CP_NSYM_REST_NAV {
        15
    } else if s.0 == RD_READ || s.0 == RD_SK2 || s.0 == RD_SK4 || s.0 == RD_SK3 || s.0 == RD_SKIP_TO_DIR || s.0 == READ_DIR {
        16
    } else if s.0 == MR_PLACE_HEAD || s.0 == MR_S3 || s.0 == MR_SKIP_CELL || s.0 == MR_S1 || s.0 == MR_S2 || s.0 == MOVE_RIGHT || s.0 == MR_FIND_HEAD || s.0 == MR_NAV {
        17
    } else if s.0 == MR_EXT_H1 || s.0 == MR_EXT_H2 || s.0 == MR_EXT_H3 || s.0 == MR_EXT_HOME || s.0 == MR_EXT_TO_BLANK || s.0 == MR_EXT_WRITE_HEAD || s.0 == MR_EXTEND_INIT {
        18
    } else if s.0 == MR_EXT_BC_NEXT || s.0 == MR_EXT_BC_RET || s.0 == MR_EXT_BC0 || s.0 == MR_EXT_BC1 || s.0 == MR_EXT_READ_BLANK || s.0 == MR_EXT_REST_BLANK {
        19
    } else if s.0 == ML_FIND_HEAD || s.0 == ML_MARK || s.0 == ML_NAV || s.0 == ML_RESTORE || s.0 == ML_S1 || s.0 == ML_S2 || s.0 == ML_S3 || s.0 == MOVE_LEFT {
        20
    } else if s.0 == DONE_SEEK_HOME {
        21
    } else if s.0 == CHK_ACC_C0 || s.0 == CHK_ACC_C0_FIND || s.0 == CHK_ACC_C1 || s.0 == CHK_ACC_C1_FIND || s.0 == CHK_ACC_INIT {
        22
    } else if s.0 == CHK_ACC_OK || s.0 == CHK_ACC_OK_ACC || s.0 == CHK_ACC_OK_FIND || s.0 == CHK_ACC_OK_SKIP {
        23
    } else if s.0 == CHK_ACC_BACK2ACC || s.0 == CHK_ACC_FAIL_BIT || s.0 == CHK_ACC_INTO_ACC || s.0 == CHK_ACC_REST_STATE {
        24
    } else if s.0 == CHK_ACC_DO_REST || s.0 == CHK_ACC_DO_REST2 || s.0 == CHK_ACC_NEXT_ENTRY {
        25
    } else if s.0 == ACC_FINAL_HOME || s.0 == ACC_REST_ACC || s.0 == ACC_REST_STATE || s.0 == ACCEPT_SEEK_HOME {
        26
    } else if s.0 == REJ_FINAL_HOME || s.0 == REJ_REST_ACC || s.0 == REJ_REST_STATE || s.0 == REJECT_SEEK_HOME {
        27
    } else {
        100
    }
}

/// A table of rules under construction; a state and a symbol get at most
/// one rule.
struct RuleSet {
    rules: Vec<ByteRule>,
}

impl RuleSet {
    fn new() -> (r: Self)
        ensures
            r.rules@ == Seq::<ByteRule>::empty(),
    {
        RuleSet { rules: Vec::new() }
    }

    /// Adds a rule; the state and the symbol must have none yet.
    fn add(&mut self, state: State, sym: Symbol, new_state: State, new_sym: Symbol, dir: Dir)
        requires
            keys_distinct(old(self).rules@),
            !has_key(old(self).rules@, state, sym),
        ensures
            final(self).rules@ == old(self).rules@.push((state, sym, new_state, new_sym, dir)),
            keys_distinct(final(self).rules@),
    {
        self.rules.push((state, sym, new_state, new_sym, dir));
    }

    /// Drops every rule of a state, keeping the order of the others.
    fn clear_state(&mut self, state: State)
        requires
            keys_distinct(old(self).rules@),
        ensures
            final(self).rules@ == old(self).rules@.filter(|x: ByteRule| x.0 != state),
            keys_distinct(final(self).rules@),
            forall|i: int|
                0 <= i < final(self).rules@.len() ==> (#[trigger] final(self).rules@[i]).0 != state
                    && old(self).rules@.contains(final(self).rules@[i]),
    {
        let ghost pred = |x: ByteRule| x.0 != state;
        let ghost start = self.rules@;
        let mut kept: Vec<ByteRule> = Vec::new();
        let mut i: usize = 0;
        while i < self.rules.len()
            invariant
                self.rules@ == start,
                pred == (|x: ByteRule| x.0 != state),
                i <= start.len(),
                keys_distinct(start),
                kept@ == start.take(i as int).filter(pred),
                keys_distinct(kept@),
                forall|k: int| 0 <= k < kept@.len() ==> (#[trigger] kept@[k]).0 != state
                    && start.take(i as int).contains(kept@[k]),
            decreases start.len() - i,
        {
            let x = self.rules[i];
            proof {
                reveal(Seq::filter);
                assert(start.take(i + 1).drop_last() =~= start.take(i as int));
            }
            if !(x.0 == state) {
                proof {
                    assert forall|k: int| 0 <= k < kept@.len() implies !((#[trigger] kept@[k]).0 == x.0
                        && kept@[k].1 == x.1) by {
                        let j = choose|j: int| 0 <= j < i && start.take(i as int)[j] == kept@[k];
                        assert(start[j] == kept@[k]);
                    }
                }
                kept.push(x);
                assert(pred(x));
                assert(kept@ == start.take(i as int).filter(pred).push(x));
            } else {
                assert(!pred(x));
            }
            proof {
                reveal(Seq::filter);
                let t1 = start.take(i + 1);
                assert(t1.len() > 0);
                assert(t1.last() == x);
                assert(t1.drop_last() == start.take(i as int));
                assert(t1.filter(pred) == if pred(x) {
                    start.take(i as int).filter(pred).push(x)
                } else {
                    start.take(i as int).filter(pred)
                });
                assert(kept@ == t1.filter(pred));
                assert forall|k: int| 0 <= k < kept@.len() implies (#[trigger] kept@[k]).0 != state
                    && start.take(i + 1).contains(kept@[k]) by {
                    if k < kept@.len() - 1 || x.0 == state {
                        let j = choose|j: int| 0 <= j < i && start.take(i as int)[j] == kept@[k];
                        assert(start.take(i + 1)[j] == kept@[k]);
                    } else {
                        assert(start.take(i + 1)[i as int] == kept@[k]);
                    }
                }
            }
            i = i + 1;
        }
        assert(start.take(i as int) =~= start);
        self.rules = kept;
    }
}

fn scan(m: &mut RuleSet, state: State, syms: &Vec<Symbol>, dir: Dir)
    requires
        keys_distinct(old(m).rules@),
        syms@.no_duplicates(),
        forall|k: int| 0 <= k < syms@.len() ==> !has_key(old(m).rules@, state, #[trigger] syms@[k]),
    ensures
        final(m).rules@ == old(m).rules@ + scan_rules(state, syms@, dir),
        keys_distinct(final(m).rules@),
{
    let ghost start = m.rules@;
    let mut k: usize = 0;
    while k < syms.len()
        invariant
            k <= syms@.len(),
            syms@.no_duplicates(),
            forall|j: int| 0 <= j < syms@.len() ==> !has_key(start, state, #[trigger] syms@[j]),
            m.rules@ == start + scan_rules(state, syms@.take(k as int), dir),
            keys_distinct(m.rules@),
        decreases syms.len() - k,
    {
        let s = syms[k];
        proof {
            if has_key(m.rules@, state, s) {
                let i = choose|i: int| 0 <= i < m.rules@.len() && (#[trigger] m.rules@[i]).0 == state && m.rules@[i].1 == s;
                if i < start.len() {
                    assert(m.rules@[i] == start[i]);
                } else {
                    assert(m.rules@[i] == scan_rules(state, syms@.take(k as int), dir)[i - start.len()]);
                    assert(syms@[i - start.len()] == s);
                }
            }
        }
        m.add(state, s, state, s, dir);
        assert(scan_rules(state, syms@.take(k + 1), dir) =~= scan_rules(state, syms@.take(k as int), dir).push(
            (state, s, state, s, dir),
        ));
        k = k + 1;
    }
    assert(syms@.take(k as int) =~= syms@);
}

/// Rules that move right over each listed symbol, keeping state and symbol.
fn scan_right(m: &mut RuleSet, state: State, syms: &Vec<Symbol>)
    requires
        keys_distinct(old(m).rules@),
        syms@.no_duplicates(),
        forall|k: int| 0 <= k < syms@.len() ==> !has_key(old(m).rules@, state, #[trigger] syms@[k]),
    ensures
        final(m).rules@ == old(m).rules@ + scan_rules(state, syms@, Dir::Right),
        keys_distinct(final(m).rules@),
{
    scan(m, state, syms, Dir::Right);
}

/// Rules that move left over each listed symbol, keeping state and symbol.
fn scan_left(m: &mut RuleSet, state: State, syms: &Vec<Symbol>)
    requires
        keys_distinct(old(m).rules@),
        syms@.no_duplicates(),
        forall|k: int| 0 <= k < syms@.len() ==> !has_key(old(m).rules@, state, #[trigger] syms@[k]),
    ensures
        final(m).rules@ == old(m).rules@ + scan_rules(state, syms@, Dir::Left),
        keys_distinct(final(m).rules@),
{
    scan(m, state, syms, Dir::Left);
}

/// The symbols that `seek_home` moves over.
pub open spec fn home_scan_symbols() -> Seq<Symbol> {
    seq![
        Symbol(SYM_ZERO), Symbol(SYM_ONE), Symbol(SYM_X), Symbol(SYM_Y), Symbol(SYM_HASH), Symbol(SYM_PIPE),
        Symbol(SYM_SEMI), Symbol(SYM_COMMA), Symbol(SYM_CARET), Symbol(SYM_DOT), Symbol(SYM_STAR), Symbol(SYM_GT),
        Symbol(SYM_L), Symbol(SYM_D)
    ]
}

/// Rules that move left to the start marker `$` and step right onto the
/// cell after it, entering `to`.
fn seek_home(m: &mut RuleSet, from: State, to: State)
    requires
        keys_distinct(old(m).rules@),
        fresh_for(old(m).rules@, set![from]),
    ensures
        final(m).rules@ == old(m).rules@ + scan_rules(from, home_scan_symbols(), Dir::Left).push(
            (from, Symbol(SYM_DOLLAR), to, Symbol(SYM_DOLLAR), Dir::Right),
        ),
        keys_distinct(final(m).rules@),
{
    let syms = vec![
        Symbol(SYM_ZERO), Symbol(SYM_ONE), Symbol(SYM_X), Symbol(SYM_Y), Symbol(SYM_HASH), Symbol(SYM_PIPE),
        Symbol(SYM_SEMI), Symbol(SYM_COMMA), Symbol(SYM_CARET), Symbol(SYM_DOT), Symbol(SYM_STAR), Symbol(SYM_GT),
        Symbol(SYM_L), Symbol(SYM_D)
    ];
    assert(syms@ == home_scan_symbols());
    scan_left(m, from, &syms);
    m.add(from, Symbol(SYM_DOLLAR), to, Symbol(SYM_DOLLAR), Dir::Right);
}

/// The symbols that `seek_star` moves over.
pub open spec fn star_scan_symbols() -> Seq<Symbol> {
    seq![
        Symbol(SYM_ZERO), Symbol(SYM_ONE), Symbol(SYM_X), Symbol(SYM_Y), Symbol(SYM_HASH), Symbol(SYM_PIPE),
        Symbol(SYM_SEMI), Symbol(SYM_COMMA), Symbol(SYM_CARET), Symbol(SYM_DOT), Symbol(SYM_L), Symbol(SYM_D)
    ]
}

/// Rules that move left to the marked rule's `*` and step right past it,
/// entering `to`.
fn seek_star(m: &mut RuleSet, from: State, to: State)
    requires
        keys_distinct(old(m).rules@),
        fresh_for(old(m).rules@, set![from]),
    ensures
        final(m).rules@ == old(m).rules@ + scan_rules(from, star_scan_symbols(), Dir::Left).push(
            (from, Symbol(SYM_STAR), to, Symbol(SYM_STAR), Dir::Right),
        ),
        keys_distinct(final(m).rules@),
{
    let syms = vec![
        Symbol(SYM_ZERO), Symbol(SYM_ONE), Symbol(SYM_X), Symbol(SYM_Y), Symbol(SYM_HASH), Symbol(SYM_PIPE),
        Symbol(SYM_SEMI), Symbol(SYM_COMMA), Symbol(SYM_CARET), Symbol(SYM_DOT), Symbol(SYM_L), Symbol(SYM_D)
    ];
    assert(syms@ == star_scan_symbols());
    scan_left(m, from, &syms);
    m.add(from, Symbol(SYM_STAR), to, Symbol(SYM_STAR), Dir::Right);
}

/// The rules that `seek_home` adds.
pub open spec fn seek_home_rules(from: State, to: State) -> Seq<ByteRule> {
    scan_rules(from, home_scan_symbols(), Dir::Left).push((from, Symbol(SYM_DOLLAR), to, Symbol(SYM_DOLLAR), Dir::Right))
}

/// The rules that `seek_star` adds.
pub open spec fn seek_star_rules(from: State, to: State) -> Seq<ByteRule> {
    scan_rules(from, star_scan_symbols(), Dir::Left).push((from, Symbol(SYM_STAR), to, Symbol(SYM_STAR), Dir::Right))
}

/// The symbols inside a rule: bits, marked bits, `|` and directions.
fn rule_internals() -> (r: Vec<Symbol>)
    ensures
        r@ == seq![Symbol(SYM_ZERO), Symbol(SYM_ONE), Symbol(SYM_X), Symbol(SYM_Y), Symbol(SYM_PIPE), Symbol(SYM_L), Symbol(SYM_D)],
{
    vec![Symbol(SYM_ZERO), Symbol(SYM_ONE), Symbol(SYM_X), Symbol(SYM_Y), Symbol(SYM_PIPE), Symbol(SYM_L), Symbol(SYM_D)]
}

/// Every symbol of the rules section.
fn rule_all() -> (r: Vec<Symbol>)
    ensures
        r@ == seq![
            Symbol(SYM_ZERO), Symbol(SYM_ONE), Symbol(SYM_X), Symbol(SYM_Y), Symbol(SYM_PIPE), Symbol(SYM_L),
            Symbol(SYM_D), Symbol(SYM_SEMI), Symbol(SYM_DOT), Symbol(SYM_STAR)
        ],
{
    vec![
        Symbol(SYM_ZERO), Symbol(SYM_ONE), Symbol(SYM_X), Symbol(SYM_Y), Symbol(SYM_PIPE), Symbol(SYM_L),
        Symbol(SYM_D), Symbol(SYM_SEMI), Symbol(SYM_DOT), Symbol(SYM_STAR)
    ]
}

fn bits() -> (r: Vec<Symbol>)
    ensures
        r@ == seq![Symbol(SYM_ZERO), Symbol(SYM_ONE)],
{
    vec![Symbol(SYM_ZERO), Symbol(SYM_ONE)]
}

fn marked_bits() -> (r: Vec<Symbol>)
    ensures
        r@ == seq![Symbol(SYM_X), Symbol(SYM_Y)],
{
    vec![Symbol(SYM_X), Symbol(SYM_Y)]
}

fn bits_and_marked() -> (r: Vec<Symbol>)
    ensures
        r@ == seq![Symbol(SYM_ZERO), Symbol(SYM_ONE), Symbol(SYM_X), Symbol(SYM_Y)],
{
    vec![Symbol(SYM_ZERO), Symbol(SYM_ONE), Symbol(SYM_X), Symbol(SYM_Y)]
}

/// A symbol group followed by more symbols.
fn with(base: &Vec<Symbol>, extra: Vec<Symbol>) -> (r: Vec<Symbol>)
    ensures
        r@ == base@ + extra@,
{
    let mut r = crate::tm::copy_vec(base);
    let mut extra = extra;
    r.append(&mut extra);
    r
}

/// The states that `compare_state_bit` gives rules to.
pub open spec fn compare_state_bit_states(c: u8) -> Set<State> {
    if c == 0 {
        set![State(CMP_ST_C0_FIND), State(CMP_ST_C0_SK1), State(CMP_ST_C0)]
    } else {
        set![State(CMP_ST_C1_FIND), State(CMP_ST_C1_SK1), State(CMP_ST_C1)]
    }
}

/// `acc` followed by the rules that `compare_state_bit` adds, in order.
pub open spec fn compare_state_bit_from(acc: Seq<ByteRule>, c: u8) -> Seq<ByteRule> {
    let carry = (if c == 0 { State(CMP_ST_C0) } else { State(CMP_ST_C1) });
    let acc = acc + scan_rules(carry, seq![Symbol(SYM_ZERO), Symbol(SYM_ONE), Symbol(SYM_X), Symbol(SYM_Y), Symbol(SYM_PIPE), Symbol(SYM_L), Symbol(SYM_D), Symbol(SYM_SEMI), Symbol(SYM_DOT), Symbol(SYM_STAR)], Dir::Right);
    let acc = acc.push((carry, Symbol(SYM_HASH), (if c == 0 { State(CMP_ST_C0_SK1) } else { State(CMP_ST_C1_SK1) }), Symbol(SYM_HASH), Dir::Right));
    let sk1 = (if c == 0 { State(CMP_ST_C0_SK1) } else { State(CMP_ST_C1_SK1) });
    let sk1_syms = seq![Symbol(SYM_ZERO), Symbol(SYM_ONE), Symbol(SYM_X), Symbol(SYM_Y)];
    let sk1_syms = sk1_syms.push(Symbol(SYM_SEMI));
    let acc = acc + scan_rules(sk1, sk1_syms, Dir::Right);
    let acc = acc.push((sk1, Symbol(SYM_HASH), (if c == 0 { State(CMP_ST_C0_FIND) } else { State(CMP_ST_C1_FIND) }), Symbol(SYM_HASH), Dir::Right));
    let find = (if c == 0 { State(CMP_ST_C0_FIND) } else { State(CMP_ST_C1_FIND) });
    let acc = acc + scan_rules(find, seq![Symbol(SYM_X), Symbol(SYM_Y)], Dir::Right);
    let acc = if c == 0 {
        let acc = acc.push((find, Symbol(SYM_ZERO), State(CMP_ST_OK), Symbol(SYM_X), Dir::Left));
        let acc = acc.push((find, Symbol(SYM_ONE), State(CMP_ST_FAIL), Symbol(SYM_Y), Dir::Left));
        acc
    } else {
        let acc = acc.push((find, Symbol(SYM_ONE), State(CMP_ST_OK), Symbol(SYM_Y), Dir::Left));
        let acc = acc.push((find, Symbol(SYM_ZERO), State(CMP_ST_FAIL), Symbol(SYM_X), Dir::Left));
        acc
    };
    acc
}

/// PHASE 2 for one bit value `c`: carry it to the state section and compare.
fn compare_state_bit(r: &mut RuleSet, c: u8)
    requires
        c < 2,
        keys_distinct(old(r).rules@),
        fresh_for(old(r).rules@, compare_state_bit_states(c)),
    ensures
        keys_distinct(final(r).rules@),
        grown_by(old(r).rules@, final(r).rules@, compare_state_bit_states(c)),
        final(r).rules@ == compare_state_bit_from(old(r).rules@, c),
{
    let carry = (if c == 0 { State(CMP_ST_C0) } else { State(CMP_ST_C1) });
    scan_right(r, carry, &rule_all());
    r.add(carry, Symbol(SYM_HASH), (if c == 0 { State(CMP_ST_C0_SK1) } else { State(CMP_ST_C1_SK1) }), Symbol(SYM_HASH), Dir::Right);
    let sk1 = (if c == 0 { State(CMP_ST_C0_SK1) } else { State(CMP_ST_C1_SK1) });
    let mut sk1_syms = bits_and_marked();
    sk1_syms.push(Symbol(SYM_SEMI));
    scan_right(r, sk1, &sk1_syms);
    r.add(sk1, Symbol(SYM_HASH), (if c == 0 { State(CMP_ST_C0_FIND) } else { State(CMP_ST_C1_FIND) }), Symbol(SYM_HASH), Dir::Right);
    let find = (if c == 0 { State(CMP_ST_C0_FIND) } else { State(CMP_ST_C1_FIND) });
    scan_right(r, find, &marked_bits());
    if c == 0 {
        r.add(find, Symbol(SYM_ZERO), State(CMP_ST_OK), Symbol(SYM_X), Dir::Left);
        r.add(find, Symbol(SYM_ONE), State(CMP_ST_FAIL), Symbol(SYM_Y), Dir::Left);
    } else {
        r.add(find, Symbol(SYM_ONE), State(CMP_ST_OK), Symbol(SYM_Y), Dir::Left);
        r.add(find, Symbol(SYM_ZERO), State(CMP_ST_FAIL), Symbol(SYM_X), Dir::Left);
    }
}

/// The states that `compare_symbol_bit` gives rules to.
pub open spec fn compare_symbol_bit_states(c: u8) -> Set<State> {
    if c == 0 {
        set![State(CMP_SYM_C0_FB), State(CMP_SYM_C0_S3), State(CMP_SYM_C0_S1), State(CMP_SYM_C0_S2), State(CMP_SYM_C0_FH), State(CMP_SYM_C0)]
    } else {
        set![State(CMP_SYM_C1_FB), State(CMP_SYM_C1_S3), State(CMP_SYM_C1_S1), State(CMP_SYM_C1_S2), State(CMP_SYM_C1_FH), State(CMP_SYM_C1)]
    }
}

/// `acc` followed by the rules that `compare_symbol_bit` adds, in order.
pub open spec fn compare_symbol_bit_from(acc: Seq<ByteRule>, c: u8) -> Seq<ByteRule> {
    let carry = (if c == 0 { State(CMP_SYM_C0) } else { State(CMP_SYM_C1) });
    let s1 = (if c == 0 { State(CMP_SYM_C0_S1) } else { State(CMP_SYM_C1_S1) });
    let s2 = (if c == 0 { State(CMP_SYM_C0_S2) } else { State(CMP_SYM_C1_S2) });
    let s3 = (if c == 0 { State(CMP_SYM_C0_S3) } else { State(CMP_SYM_C1_S3) });
    let fh = (if c == 0 { State(CMP_SYM_C0_FH) } else { State(CMP_SYM_C1_FH) });
    let fb = (if c == 0 { State(CMP_SYM_C0_FB) } else { State(CMP_SYM_C1_FB) });
    let acc = acc + scan_rules(carry, seq![Symbol(SYM_ZERO), Symbol(SYM_ONE), Symbol(SYM_X), Symbol(SYM_Y), Symbol(SYM_PIPE), Symbol(SYM_L), Symbol(SYM_D), Symbol(SYM_SEMI), Symbol(SYM_DOT), Symbol(SYM_STAR)], Dir::Right);
    let acc = acc.push((carry, Symbol(SYM_HASH), s1, Symbol(SYM_HASH), Dir::Right));
    let syms = seq![Symbol(SYM_ZERO), Symbol(SYM_ONE), Symbol(SYM_X), Symbol(SYM_Y)];
    let syms = syms.push(Symbol(SYM_SEMI));
    let acc = acc + scan_rules(s1, syms, Dir::Right);
    let acc = acc.push((s1, Symbol(SYM_HASH), s2, Symbol(SYM_HASH), Dir::Right));
    let acc = acc + scan_rules(s2, seq![Symbol(SYM_ZERO), Symbol(SYM_ONE), Symbol(SYM_X), Symbol(SYM_Y)], Dir::Right);
    let acc = acc.push((s2, Symbol(SYM_HASH), s3, Symbol(SYM_HASH), Dir::Right));
    let acc = acc + scan_rules(s3, seq![Symbol(SYM_ZERO), Symbol(SYM_ONE)], Dir::Right);
    let acc = acc.push((s3, Symbol(SYM_HASH), fh, Symbol(SYM_HASH), Dir::Right));
    let syms = seq![Symbol(SYM_ZERO), Symbol(SYM_ONE), Symbol(SYM_X), Symbol(SYM_Y)];
    let syms = syms.push(Symbol(SYM_COMMA));
    let acc = acc + scan_rules(fh, syms, Dir::Right);
    let acc = acc.push((fh, Symbol(SYM_CARET), fb, Symbol(SYM_CARET), Dir::Right));
    let acc = acc + scan_rules(fb, seq![Symbol(SYM_X), Symbol(SYM_Y)], Dir::Right);
    let acc = if c == 0 {
        let acc = acc.push((fb, Symbol(SYM_ZERO), State(CMP_SYM_OK), Symbol(SYM_X), Dir::Left));
        let acc = acc.push((fb, Symbol(SYM_ONE), State(CMP_SYM_FAIL), Symbol(SYM_Y), Dir::Left));
        acc
    } else {
        let acc = acc.push((fb, Symbol(SYM_ONE), State(CMP_SYM_OK), Symbol(SYM_Y), Dir::Left));
        let acc = acc.push((fb, Symbol(SYM_ZERO), State(CMP_SYM_FAIL), Symbol(SYM_X), Dir::Left));
        acc
    };
    acc
}

/// PHASE 3 for one bit value `c`: carry it to the head cell and compare.
fn compare_symbol_bit(r: &mut RuleSet, c: u8)
    requires
        c < 2,
        keys_distinct(old(r).rules@),
        fresh_for(old(r).rules@, compare_symbol_bit_states(c)),
    ensures
        keys_distinct(final(r).rules@),
        grown_by(old(r).rules@, final(r).rules@, compare_symbol_bit_states(c)),
        final(r).rules@ == compare_symbol_bit_from(old(r).rules@, c),
{
    let carry = (if c == 0 { State(CMP_SYM_C0) } else { State(CMP_SYM_C1) });
    let s1 = (if c == 0 { State(CMP_SYM_C0_S1) } else { State(CMP_SYM_C1_S1) });
    let s2 = (if c == 0 { State(CMP_SYM_C0_S2) } else { State(CMP_SYM_C1_S2) });
    let s3 = (if c == 0 { State(CMP_SYM_C0_S3) } else { State(CMP_SYM_C1_S3) });
    let fh = (if c == 0 { State(CMP_SYM_C0_FH) } else { State(CMP_SYM_C1_FH) });
    let fb = (if c == 0 { State(CMP_SYM_C0_FB) } else { State(CMP_SYM_C1_FB) });
    scan_right(r, carry, &rule_all());
    r.add(carry, Symbol(SYM_HASH), s1, Symbol(SYM_HASH), Dir::Right);
    // Skip ACC
    {
        let mut syms = bits_and_marked();
        syms.push(Symbol(SYM_SEMI));
        scan_right(r, s1, &syms);
        r.add(s1, Symbol(SYM_HASH), s2, Symbol(SYM_HASH), Dir::Right);
    }
    // Skip STATE
    scan_right(r, s2, &bits_and_marked());
    r.add(s2, Symbol(SYM_HASH), s3, Symbol(SYM_HASH), Dir::Right);
    // Skip BLANK
    scan_right(r, s3, &bits());
    r.add(s3, Symbol(SYM_HASH), fh, Symbol(SYM_HASH), Dir::Right);
    // Find ^
    {
        let mut syms = bits_and_marked();
        syms.push(Symbol(SYM_COMMA));
        scan_right(r, fh, &syms);
        r.add(fh, Symbol(SYM_CARET), fb, Symbol(SYM_CARET), Dir::Right);
    }
    // Find next unmarked bit in head cell
    scan_right(r, fb, &marked_bits());
    if c == 0 {
        r.add(fb, Symbol(SYM_ZERO), State(CMP_SYM_OK), Symbol(SYM_X), Dir::Left);
        r.add(fb, Symbol(SYM_ONE), State(CMP_SYM_FAIL), Symbol(SYM_Y), Dir::Left);
    } else {
        r.add(fb, Symbol(SYM_ONE), State(CMP_SYM_OK), Symbol(SYM_Y), Dir::Left);
        r.add(fb, Symbol(SYM_ZERO), State(CMP_SYM_FAIL), Symbol(SYM_X), Dir::Left);
    }
}

/// The states that `copy_state_bit` gives rules to.
pub open spec fn copy_state_bit_states(c: u8) -> Set<State> {
    if c == 0 {
        set![State(CP_NST_C0_W), State(CP_NST_C0_S1), State(CP_NST_C0)]
    } else {
        set![State(CP_NST_C1_W), State(CP_NST_C1_S1), State(CP_NST_C1)]
    }
}

/// `acc` followed by the rules that `copy_state_bit` adds, in order.
pub open spec fn copy_state_bit_from(acc: Seq<ByteRule>, c: u8) -> Seq<ByteRule> {
    let carry = (if c == 0 { State(CP_NST_C0) } else { State(CP_NST_C1) });
    let s1 = (if c == 0 { State(CP_NST_C0_S1) } else { State(CP_NST_C1_S1) });
    let w = (if c == 0 { State(CP_NST_C0_W) } else { State(CP_NST_C1_W) });
    let mark = if c == 0 { Symbol(SYM_X) } else { Symbol(SYM_Y) };
    let acc = acc + scan_rules(carry, seq![Symbol(SYM_ZERO), Symbol(SYM_ONE), Symbol(SYM_X), Symbol(SYM_Y), Symbol(SYM_PIPE), Symbol(SYM_L), Symbol(SYM_D), Symbol(SYM_SEMI), Symbol(SYM_DOT), Symbol(SYM_STAR)], Dir::Right);
    let acc = acc.push((carry, Symbol(SYM_HASH), s1, Symbol(SYM_HASH), Dir::Right));
    let syms = seq![Symbol(SYM_ZERO), Symbol(SYM_ONE), Symbol(SYM_X), Symbol(SYM_Y)];
    let syms = syms.push(Symbol(SYM_SEMI));
    let acc = acc + scan_rules(s1, syms, Dir::Right);
    let acc = acc.push((s1, Symbol(SYM_HASH), w, Symbol(SYM_HASH), Dir::Right));
    let acc = acc + scan_rules(w, seq![Symbol(SYM_X), Symbol(SYM_Y)], Dir::Right);
    let acc = acc.push((w, Symbol(SYM_ZERO), State(CP_NST_RET), mark, Dir::Left));
    let acc = acc.push((w, Symbol(SYM_ONE), State(CP_NST_RET), mark, Dir::Left));
    acc
}

/// PHASE 4 for one bit value `c`: carry it to the state section and write it.
fn copy_state_bit(r: &mut RuleSet, c: u8)
    requires
        c < 2,
        keys_distinct(old(r).rules@),
        fresh_for(old(r).rules@, copy_state_bit_states(c)),
    ensures
        keys_distinct(final(r).rules@),
        grown_by(old(r).rules@, final(r).rules@, copy_state_bit_states(c)),
        final(r).rules@ == copy_state_bit_from(old(r).rules@, c),
{
    let carry = (if c == 0 { State(CP_NST_C0) } else { State(CP_NST_C1) });
    let s1 = (if c == 0 { State(CP_NST_C0_S1) } else { State(CP_NST_C1_S1) });
    let w = (if c == 0 { State(CP_NST_C0_W) } else { State(CP_NST_C1_W) });
    let mark = if c == 0 { Symbol(SYM_X) } else { Symbol(SYM_Y) };
    scan_right(r, carry, &rule_all());
    r.add(carry, Symbol(SYM_HASH), s1, Symbol(SYM_HASH), Dir::Right);
    {
        let mut syms = bits_and_marked();
        syms.push(Symbol(SYM_SEMI));
        scan_right(r, s1, &syms);
        r.add(s1, Symbol(SYM_HASH), w, Symbol(SYM_HASH), Dir::Right);
    }
    scan_right(r, w, &marked_bits());
    r.add(w, Symbol(SYM_ZERO), State(CP_NST_RET), mark, Dir::Left);
    r.add(w, Symbol(SYM_ONE), State(CP_NST_RET), mark, Dir::Left);
}

/// The states that `copy_symbol_bit` gives rules to.
pub open spec fn copy_symbol_bit_states(c: u8) -> Set<State> {
    if c == 0 {
        set![State(CP_NSYM_C0_FB), State(CP_NSYM_C0_S3), State(CP_NSYM_C0_S1), State(CP_NSYM_C0_S2), State(CP_NSYM_C0_FH), State(CP_NSYM_C0)]
    } else {
        set![State(CP_NSYM_C1_FB), State(CP_NSYM_C1_S3), State(CP_NSYM_C1_S1), State(CP_NSYM_C1_S2), State(CP_NSYM_C1_FH), State(CP_NSYM_C1)]
    }
}

/// `acc` followed by the rules that `copy_symbol_bit` adds, in order.
pub open spec fn copy_symbol_bit_from(acc: Seq<ByteRule>, c: u8) -> Seq<ByteRule> {
    let carry = (if c == 0 { State(CP_NSYM_C0) } else { State(CP_NSYM_C1) });
    let s1 = (if c == 0 { State(CP_NSYM_C0_S1) } else { State(CP_NSYM_C1_S1) });
    let s2 = (if c == 0 { State(CP_NSYM_C0_S2) } else { State(CP_NSYM_C1_S2) });
    let s3 = (if c == 0 { State(CP_NSYM_C0_S3) } else { State(CP_NSYM_C1_S3) });
    let fh = (if c == 0 { State(CP_NSYM_C0_FH) } else { State(CP_NSYM_C1_FH) });
    let fb = (if c == 0 { State(CP_NSYM_C0_FB) } else { State(CP_NSYM_C1_FB) });
    let mark = if c == 0 { Symbol(SYM_X) } else { Symbol(SYM_Y) };
    let acc = acc + scan_rules(carry, seq![Symbol(SYM_ZERO), Symbol(SYM_ONE), Symbol(SYM_X), Symbol(SYM_Y), Symbol(SYM_PIPE), Symbol(SYM_L), Symbol(SYM_D), Symbol(SYM_SEMI), Symbol(SYM_DOT), Symbol(SYM_STAR)], Dir::Right);
    let acc = acc.push((carry, Symbol(SYM_HASH), s1, Symbol(SYM_HASH), Dir::Right));
    let syms = seq![Symbol(SYM_ZERO), Symbol(SYM_ONE), Symbol(SYM_X), Symbol(SYM_Y)];
    let syms = syms.push(Symbol(SYM_SEMI));
    let acc = acc + scan_rules(s1, syms, Dir::Right);
    let acc = acc.push((s1, Symbol(SYM_HASH), s2, Symbol(SYM_HASH), Dir::Right));
    let acc = acc + scan_rules(s2, seq![Symbol(SYM_ZERO), Symbol(SYM_ONE), Symbol(SYM_X), Symbol(SYM_Y)], Dir::Right);
    let acc = acc.push((s2, Symbol(SYM_HASH), s3, Symbol(SYM_HASH), Dir::Right));
    let acc = acc + scan_rules(s3, seq![Symbol(SYM_ZERO), Symbol(SYM_ONE)], Dir::Right);
    let acc = acc.push((s3, Symbol(SYM_HASH), fh, Symbol(SYM_HASH), Dir::Right));
    let syms = seq![Symbol(SYM_ZERO), Symbol(SYM_ONE), Symbol(SYM_X), Symbol(SYM_Y)];
    let syms = syms.push(Symbol(SYM_COMMA));
    let acc = acc + scan_rules(fh, syms, Dir::Right);
    let acc = acc.push((fh, Symbol(SYM_CARET), fb, Symbol(SYM_CARET), Dir::Right));
    let acc = acc + scan_rules(fb, seq![Symbol(SYM_X), Symbol(SYM_Y)], Dir::Right);
    let acc = acc.push((fb, Symbol(SYM_ZERO), State(CP_NSYM_RET), mark, Dir::Left));
    let acc = acc.push((fb, Symbol(SYM_ONE), State(CP_NSYM_RET), mark, Dir::Left));
    acc
}

/// PHASE 5 for one bit value `c`: carry it to the head cell and write it.
fn copy_symbol_bit(r: &mut RuleSet, c: u8)
    requires
        c < 2,
        keys_distinct(old(r).rules@),
        fresh_for(old(r).rules@, copy_symbol_bit_states(c)),
    ensures
        keys_distinct(final(r).rules@),
        grown_by(old(r).rules@, final(r).rules@, copy_symbol_bit_states(c)),
        final(r).rules@ == copy_symbol_bit_from(old(r).rules@, c),
{
    let carry = (if c == 0 { State(CP_NSYM_C0) } else { State(CP_NSYM_C1) });
    let s1 = (if c == 0 { State(CP_NSYM_C0_S1) } else { State(CP_NSYM_C1_S1) });
    let s2 = (if c == 0 { State(CP_NSYM_C0_S2) } else { State(CP_NSYM_C1_S2) });
    let s3 = (if c == 0 { State(CP_NSYM_C0_S3) } else { State(CP_NSYM_C1_S3) });
    let fh = (if c == 0 { State(CP_NSYM_C0_FH) } else { State(CP_NSYM_C1_FH) });
    let fb = (if c == 0 { State(CP_NSYM_C0_FB) } else { State(CP_NSYM_C1_FB) });
    let mark = if c == 0 { Symbol(SYM_X) } else { Symbol(SYM_Y) };
    scan_right(r, carry, &rule_all());
    r.add(carry, Symbol(SYM_HASH), s1, Symbol(SYM_HASH), Dir::Right);
    {
        let mut syms = bits_and_marked();
        syms.push(Symbol(SYM_SEMI));
        scan_right(r, s1, &syms);
        r.add(s1, Symbol(SYM_HASH), s2, Symbol(SYM_HASH), Dir::Right);
    }
    scan_right(r, s2, &bits_and_marked());
    r.add(s2, Symbol(SYM_HASH), s3, Symbol(SYM_HASH), Dir::Right);
    scan_right(r, s3, &bits());
    r.add(s3, Symbol(SYM_HASH), fh, Symbol(SYM_HASH), Dir::Right);
    {
        let mut syms = bits_and_marked();
        syms.push(Symbol(SYM_COMMA));
        scan_right(r, fh, &syms);
        r.add(fh, Symbol(SYM_CARET), fb, Symbol(SYM_CARET), Dir::Right);
    }
    scan_right(r, fb, &marked_bits());
    r.add(fb, Symbol(SYM_ZERO), State(CP_NSYM_RET), mark, Dir::Left);
    r.add(fb, Symbol(SYM_ONE), State(CP_NSYM_RET), mark, Dir::Left);
}

/// The states that `carry_blank_bit` gives rules to.
pub open spec fn carry_blank_bit_states(c: u8) -> Set<State> {
    if c == 0 {
        set![State(MR_EXT_BC0)]
    } else {
        set![State(MR_EXT_BC1)]
    }
}

/// `acc` followed by the rules that `carry_blank_bit` adds, in order.
pub open spec fn carry_blank_bit_from(acc: Seq<ByteRule>, c: u8) -> Seq<ByteRule> {
    let carry = (if c == 0 { State(MR_EXT_BC0) } else { State(MR_EXT_BC1) });
    let c_sym = if c == 0 { Symbol(SYM_ZERO) } else { Symbol(SYM_ONE) };
    let syms = (seq![Symbol(SYM_ZERO), Symbol(SYM_ONE)] + seq![Symbol(SYM_HASH), Symbol(SYM_COMMA), Symbol(SYM_CARET)]);
    let acc = acc + scan_rules(carry, syms, Dir::Right);
    let acc = acc.push((carry, Symbol(SYM_BLANK), State(MR_EXT_BC_RET), c_sym, Dir::Left));
    acc
}

/// Carry one bit `c` of the blank's code into the new cell.
fn carry_blank_bit(r: &mut RuleSet, c: u8)
    requires
        c < 2,
        keys_distinct(old(r).rules@),
        fresh_for(old(r).rules@, carry_blank_bit_states(c)),
    ensures
        keys_distinct(final(r).rules@),
        grown_by(old(r).rules@, final(r).rules@, carry_blank_bit_states(c)),
        final(r).rules@ == carry_blank_bit_from(old(r).rules@, c),
{
    let carry = (if c == 0 { State(MR_EXT_BC0) } else { State(MR_EXT_BC1) });
    let c_sym = if c == 0 { Symbol(SYM_ZERO) } else { Symbol(SYM_ONE) };
    let syms = with(&bits(), vec![Symbol(SYM_HASH), Symbol(SYM_COMMA), Symbol(SYM_CARET)]);
    scan_right(r, carry, &syms);
    r.add(carry, Symbol(SYM_BLANK), State(MR_EXT_BC_RET), c_sym, Dir::Left);
}

/// The states that `check_accept_bit` gives rules to.
pub open spec fn check_accept_bit_states(c: u8) -> Set<State> {
    if c == 0 {
        set![State(CHK_ACC_C0), State(CHK_ACC_C0_FIND)]
    } else {
        set![State(CHK_ACC_C1), State(CHK_ACC_C1_FIND)]
    }
}

/// `acc` followed by the rules that `check_accept_bit` adds, in order.
pub open spec fn check_accept_bit_from(acc: Seq<ByteRule>, c: u8) -> Seq<ByteRule> {
    let carry = (if c == 0 { State(CHK_ACC_C0) } else { State(CHK_ACC_C1) });
    let find = (if c == 0 { State(CHK_ACC_C0_FIND) } else { State(CHK_ACC_C1_FIND) });
    let syms = seq![Symbol(SYM_ZERO), Symbol(SYM_ONE), Symbol(SYM_X), Symbol(SYM_Y)];
    let syms = syms.push(Symbol(SYM_SEMI));
    let acc = acc + scan_rules(carry, syms, Dir::Right);
    let acc = acc.push((carry, Symbol(SYM_HASH), find, Symbol(SYM_HASH), Dir::Right));
    let acc = acc + scan_rules(find, seq![Symbol(SYM_X), Symbol(SYM_Y)], Dir::Right);
    let acc = if c == 0 {
        let acc = acc.push((find, Symbol(SYM_ZERO), State(CHK_ACC_OK), Symbol(SYM_X), Dir::Left));
        let acc = acc.push((find, Symbol(SYM_ONE), State(CHK_ACC_FAIL_BIT), Symbol(SYM_Y), Dir::Left));
        acc
    } else {
        let acc = acc.push((find, Symbol(SYM_ONE), State(CHK_ACC_OK), Symbol(SYM_Y), Dir::Left));
        let acc = acc.push((find, Symbol(SYM_ZERO), State(CHK_ACC_FAIL_BIT), Symbol(SYM_X), Dir::Left));
        acc
    };
    acc
}

/// PHASE 8 for one bit value `c`: compare it with the accepting entry.
fn check_accept_bit(r: &mut RuleSet, c: u8)
    requires
        c < 2,
        keys_distinct(old(r).rules@),
        fresh_for(old(r).rules@, check_accept_bit_states(c)),
    ensures
        keys_distinct(final(r).rules@),
        grown_by(old(r).rules@, final(r).rules@, check_accept_bit_states(c)),
        final(r).rules@ == check_accept_bit_from(old(r).rules@, c),
{
    let carry = (if c == 0 { State(CHK_ACC_C0) } else { State(CHK_ACC_C1) });
    let find = (if c == 0 { State(CHK_ACC_C0_FIND) } else { State(CHK_ACC_C1_FIND) });
    let mut syms = bits_and_marked();
    syms.push(Symbol(SYM_SEMI));
    scan_right(r, carry, &syms);
    r.add(carry, Symbol(SYM_HASH), find, Symbol(SYM_HASH), Dir::Right);
    scan_right(r, find, &marked_bits());
    if c == 0 {
        r.add(find, Symbol(SYM_ZERO), State(CHK_ACC_OK), Symbol(SYM_X), Dir::Left);
        r.add(find, Symbol(SYM_ONE), State(CHK_ACC_FAIL_BIT), Symbol(SYM_Y), Dir::Left);
    } else {
        r.add(find, Symbol(SYM_ONE), State(CHK_ACC_OK), Symbol(SYM_Y), Dir::Left);
        r.add(find, Symbol(SYM_ZERO), State(CHK_ACC_FAIL_BIT), Symbol(SYM_X), Dir::Left);
    }
}

/// `acc` followed by the rules that `init_rules` adds, in order.
pub open spec fn init_rules_from(acc: Seq<ByteRule>) -> Seq<ByteRule> {
    let acc = acc.push((State(INIT), Symbol(SYM_DOLLAR), State(INIT_SKIP), Symbol(SYM_DOLLAR), Dir::Right));
    let acc = acc.push((State(INIT), Symbol(SYM_HASH), State(INIT_SEEK_END), Symbol(SYM_HASH), Dir::Right));
    let acc = acc.push((State(INIT_SKIP), Symbol(SYM_HASH), State(INIT_SEEK_END), Symbol(SYM_HASH), Dir::Right));
    let s = State(INIT_SEEK_END);
    let syms = (seq![Symbol(SYM_ZERO), Symbol(SYM_ONE), Symbol(SYM_X), Symbol(SYM_Y), Symbol(SYM_PIPE), Symbol(SYM_L), Symbol(SYM_D)] + seq![Symbol(SYM_SEMI), Symbol(SYM_DOT)]);
    let acc = acc + scan_rules(s, syms, Dir::Right);
    let acc = acc.push((s, Symbol(SYM_HASH), State(MARK_RULE), Symbol(SYM_HASH), Dir::Left));
    acc
}

/// PHASE 0: from `$` (or the cell after it), run right to the end of the rules
/// section.
#[verifier::spinoff_prover]
#[verifier::rlimit(30)]
fn init_rules(r: &mut RuleSet)
    requires
        built_before(old(r).rules@, 0),
    ensures
        built_before(final(r).rules@, 1),
        final(r).rules@ == init_rules_from(old(r).rules@),
{
    r.add(State(INIT), Symbol(SYM_DOLLAR), State(INIT_SKIP), Symbol(SYM_DOLLAR), Dir::Right);
    r.add(State(INIT), Symbol(SYM_HASH), State(INIT_SEEK_END), Symbol(SYM_HASH), Dir::Right);
    r.add(State(INIT_SKIP), Symbol(SYM_HASH), State(INIT_SEEK_END), Symbol(SYM_HASH), Dir::Right);
    {
        let s = State(INIT_SEEK_END);
        let syms = with(&rule_internals(), vec![Symbol(SYM_SEMI), Symbol(SYM_DOT)]);
        scan_right(r, s, &syms);
        r.add(s, Symbol(SYM_HASH), State(MARK_RULE), Symbol(SYM_HASH), Dir::Left);
    }
}

/// `acc` followed by the rules that `mark_rule_rules` adds, in order.
pub open spec fn mark_rule_rules_from(acc: Seq<ByteRule>) -> Seq<ByteRule> {
    let mr = State(MARK_RULE);
    let acc = acc + scan_rules(mr, seq![Symbol(SYM_ZERO), Symbol(SYM_ONE), Symbol(SYM_X), Symbol(SYM_Y), Symbol(SYM_PIPE), Symbol(SYM_L), Symbol(SYM_D)], Dir::Left);
    let acc = acc.push((mr, Symbol(SYM_SEMI), mr, Symbol(SYM_SEMI), Dir::Left));
    let acc = acc.push((mr, Symbol(SYM_DOT), State(CMP_ST_READ), Symbol(SYM_STAR), Dir::Right));
    let acc = acc.push((mr, Symbol(SYM_HASH), State(MARK_RULE_NO_MATCH), Symbol(SYM_HASH), Dir::Right));
    let nm = State(MARK_RULE_NO_MATCH);
    let syms = (seq![Symbol(SYM_ZERO), Symbol(SYM_ONE), Symbol(SYM_X), Symbol(SYM_Y), Symbol(SYM_PIPE), Symbol(SYM_L), Symbol(SYM_D)] + seq![Symbol(SYM_SEMI), Symbol(SYM_DOT)]);
    let acc = acc + scan_rules(nm, syms, Dir::Right);
    let acc = acc.push((nm, Symbol(SYM_HASH), State(CHK_ACC_INIT), Symbol(SYM_HASH), Dir::Right));
    acc
}

/// PHASE 1: search the rules from right to left for the next candidate and
/// mark its `.` with `*`.
#[verifier::spinoff_prover]
#[verifier::rlimit(30)]
fn mark_rule_rules(r: &mut RuleSet)
    requires
        built_before(old(r).rules@, 1),
    ensures
        built_before(final(r).rules@, 2),
        final(r).rules@ == mark_rule_rules_from(old(r).rules@),
{
    {
        let mr = State(MARK_RULE);
        scan_left(r, mr, &rule_internals());
        r.add(mr, Symbol(SYM_SEMI), mr, Symbol(SYM_SEMI), Dir::Left);
        r.add(mr, Symbol(SYM_DOT), State(CMP_ST_READ), Symbol(SYM_STAR), Dir::Right);
        r.add(mr, Symbol(SYM_HASH), State(MARK_RULE_NO_MATCH), Symbol(SYM_HASH), Dir::Right);
    }
    {
        let nm = State(MARK_RULE_NO_MATCH);
        let syms = with(&rule_internals(), vec![Symbol(SYM_SEMI), Symbol(SYM_DOT)]);
        scan_right(r, nm, &syms);
        r.add(nm, Symbol(SYM_HASH), State(CHK_ACC_INIT), Symbol(SYM_HASH), Dir::Right);
    }
}

/// `acc` followed by the rules that `compare_state_rules` adds, in order.
pub open spec fn compare_state_rules_from(acc: Seq<ByteRule>) -> Seq<ByteRule> {
    let acc = acc.push((State(CMP_ST_READ), Symbol(SYM_ZERO), State(CMP_ST_C0), Symbol(SYM_X), Dir::Right));
    let acc = acc.push((State(CMP_ST_READ), Symbol(SYM_ONE), State(CMP_ST_C1), Symbol(SYM_Y), Dir::Right));
    let acc = acc.push((State(CMP_ST_READ), Symbol(SYM_PIPE), State(ST_MATCH_CLEANUP), Symbol(SYM_PIPE), Dir::Right));
    let acc = compare_state_bit_from(acc, 0);
    let acc = compare_state_bit_from(acc, 1);
    acc
}

/// PHASE 2: compare the marked rule's state bits with the current state.
#[verifier::spinoff_prover]
#[verifier::rlimit(30)]
fn compare_state_rules(r: &mut RuleSet)
    requires
        built_before(old(r).rules@, 2),
    ensures
        built_before(final(r).rules@, 3),
        final(r).rules@ == compare_state_rules_from(old(r).rules@),
{
    r.add(State(CMP_ST_READ), Symbol(SYM_ZERO), State(CMP_ST_C0), Symbol(SYM_X), Dir::Right);
    r.add(State(CMP_ST_READ), Symbol(SYM_ONE), State(CMP_ST_C1), Symbol(SYM_Y), Dir::Right);
    r.add(State(CMP_ST_READ), Symbol(SYM_PIPE), State(ST_MATCH_CLEANUP), Symbol(SYM_PIPE), Dir::Right);
    compare_state_bit(r, 0);
    compare_state_bit(r, 1);
}

/// `acc` followed by the rules that `state_bit_matched_rules` adds, in order.
pub open spec fn state_bit_matched_rules_from(acc: Seq<ByteRule>) -> Seq<ByteRule> {
    let acc = acc + seek_star_rules(State(CMP_ST_OK), State(CMP_ST_NEXTBIT));
    let nb = State(CMP_ST_NEXTBIT);
    let acc = acc + scan_rules(nb, seq![Symbol(SYM_X), Symbol(SYM_Y)], Dir::Right);
    let acc = acc.push((nb, Symbol(SYM_ZERO), State(CMP_ST_C0), Symbol(SYM_X), Dir::Right));
    let acc = acc.push((nb, Symbol(SYM_ONE), State(CMP_ST_C1), Symbol(SYM_Y), Dir::Right));
    let acc = acc.push((nb, Symbol(SYM_PIPE), State(ST_MATCH_CLEANUP), Symbol(SYM_PIPE), Dir::Right));
    acc
}

/// A state bit matched: return to `*` to read the next bit.
#[verifier::spinoff_prover]
#[verifier::rlimit(30)]
fn state_bit_matched_rules(r: &mut RuleSet)
    requires
        built_before(old(r).rules@, 3),
    ensures
        built_before(final(r).rules@, 4),
        final(r).rules@ == state_bit_matched_rules_from(old(r).rules@),
{
    {
        seek_star(r, State(CMP_ST_OK), State(CMP_ST_NEXTBIT));
        let nb = State(CMP_ST_NEXTBIT);
        scan_right(r, nb, &marked_bits());
        r.add(nb, Symbol(SYM_ZERO), State(CMP_ST_C0), Symbol(SYM_X), Dir::Right);
        r.add(nb, Symbol(SYM_ONE), State(CMP_ST_C1), Symbol(SYM_Y), Dir::Right);
        r.add(nb, Symbol(SYM_PIPE), State(ST_MATCH_CLEANUP), Symbol(SYM_PIPE), Dir::Right);
    }
}

/// `acc` followed by the rules that `state_match_cleanup_rules` adds, in order.
pub open spec fn state_match_cleanup_rules_from(acc: Seq<ByteRule>) -> Seq<ByteRule> {
    let smc = State(ST_MATCH_CLEANUP);
    let acc = acc.push((smc, Symbol(SYM_ZERO), smc, Symbol(SYM_ZERO), Dir::Right));
    let acc = acc.push((smc, Symbol(SYM_ONE), smc, Symbol(SYM_ONE), Dir::Right));
    let acc = acc.filter(|x: ByteRule| x.0 != State(ST_MATCH_CLEANUP));
    let smc = State(ST_MATCH_CLEANUP);
    let acc = acc.push((smc, Symbol(SYM_ZERO), State(STM_GO_LEFT), Symbol(SYM_ZERO), Dir::Left));
    let acc = acc.push((smc, Symbol(SYM_ONE), State(STM_GO_LEFT), Symbol(SYM_ONE), Dir::Left));
    let acc = acc.push((smc, Symbol(SYM_PIPE), State(STM_GO_LEFT), Symbol(SYM_PIPE), Dir::Left));
    let gl = State(STM_GO_LEFT);
    let acc = acc.push((gl, Symbol(SYM_PIPE), State(STM_RESTORE_RULE), Symbol(SYM_PIPE), Dir::Left));
    let acc = acc + scan_rules(gl, seq![Symbol(SYM_ZERO), Symbol(SYM_ONE)], Dir::Left);
    let rr = State(STM_RESTORE_RULE);
    let acc = acc.push((rr, Symbol(SYM_X), rr, Symbol(SYM_ZERO), Dir::Left));
    let acc = acc.push((rr, Symbol(SYM_Y), rr, Symbol(SYM_ONE), Dir::Left));
    let acc = acc + scan_rules(rr, seq![Symbol(SYM_ZERO), Symbol(SYM_ONE)], Dir::Left);
    let acc = acc.push((rr, Symbol(SYM_STAR), State(STM_GOTO_STATE), Symbol(SYM_STAR), Dir::Right));
    let gs = State(STM_GOTO_STATE);
    let syms = (seq![Symbol(SYM_ZERO), Symbol(SYM_ONE), Symbol(SYM_X), Symbol(SYM_Y), Symbol(SYM_PIPE), Symbol(SYM_L), Symbol(SYM_D)] + seq![Symbol(SYM_SEMI), Symbol(SYM_DOT)]);
    let acc = acc + scan_rules(gs, syms, Dir::Right);
    let acc = acc.push((gs, Symbol(SYM_HASH), State(STM_GS_SK1), Symbol(SYM_HASH), Dir::Right));
    let sk = State(STM_GS_SK1);
    let syms = seq![Symbol(SYM_ZERO), Symbol(SYM_ONE), Symbol(SYM_X), Symbol(SYM_Y)];
    let syms = syms.push(Symbol(SYM_SEMI));
    let acc = acc + scan_rules(sk, syms, Dir::Right);
    let acc = acc.push((sk, Symbol(SYM_HASH), State(STM_RESTORE_STATE), Symbol(SYM_HASH), Dir::Right));
    let rs = State(STM_RESTORE_STATE);
    let acc = acc.push((rs, Symbol(SYM_X), rs, Symbol(SYM_ZERO), Dir::Right));
    let acc = acc.push((rs, Symbol(SYM_Y), rs, Symbol(SYM_ONE), Dir::Right));
    let acc = acc + scan_rules(rs, seq![Symbol(SYM_ZERO), Symbol(SYM_ONE)], Dir::Right);
    let acc = acc.push((rs, Symbol(SYM_HASH), State(STM_BACK_TO_RULE), Symbol(SYM_HASH), Dir::Left));
    let acc = acc + seek_star_rules(State(STM_BACK_TO_RULE), State(SYM_SKIP_STATE));
    let ss = State(SYM_SKIP_STATE);
    let acc = acc + scan_rules(ss, seq![Symbol(SYM_ZERO), Symbol(SYM_ONE)], Dir::Right);
    let acc = acc.push((ss, Symbol(SYM_PIPE), State(CMP_SYM_READ), Symbol(SYM_PIPE), Dir::Right));
    acc
}

/// The whole state matched: restore the marks and go on to the symbol.
#[verifier::spinoff_prover]
#[verifier::rlimit(30)]
fn state_match_cleanup_rules(r: &mut RuleSet)
    requires
        built_before(old(r).rules@, 4),
    ensures
        built_before(final(r).rules@, 5),
        final(r).rules@ == state_match_cleanup_rules_from(old(r).rules@),
{
    // First add wrong rules (to register state in insertion order), then clear & redo
    {
        let smc = State(ST_MATCH_CLEANUP);
        r.add(smc, Symbol(SYM_ZERO), smc, Symbol(SYM_ZERO), Dir::Right);
        r.add(smc, Symbol(SYM_ONE), smc, Symbol(SYM_ONE), Dir::Right);
    }
    r.clear_state(State(ST_MATCH_CLEANUP));
    {
        let smc = State(ST_MATCH_CLEANUP);
        r.add(smc, Symbol(SYM_ZERO), State(STM_GO_LEFT), Symbol(SYM_ZERO), Dir::Left);
        r.add(smc, Symbol(SYM_ONE), State(STM_GO_LEFT), Symbol(SYM_ONE), Dir::Left);
        r.add(smc, Symbol(SYM_PIPE), State(STM_GO_LEFT), Symbol(SYM_PIPE), Dir::Left);
    }
    {
        let gl = State(STM_GO_LEFT);
        r.add(gl, Symbol(SYM_PIPE), State(STM_RESTORE_RULE), Symbol(SYM_PIPE), Dir::Left);
        scan_left(r, gl, &bits());
    }
    {
        let rr = State(STM_RESTORE_RULE);
        r.add(rr, Symbol(SYM_X), rr, Symbol(SYM_ZERO), Dir::Left);
        r.add(rr, Symbol(SYM_Y), rr, Symbol(SYM_ONE), Dir::Left);
        scan_left(r, rr, &bits());
        r.add(rr, Symbol(SYM_STAR), State(STM_GOTO_STATE), Symbol(SYM_STAR), Dir::Right);
    }
    {
        let gs = State(STM_GOTO_STATE);
        let syms = with(&rule_internals(), vec![Symbol(SYM_SEMI), Symbol(SYM_DOT)]);
        scan_right(r, gs, &syms);
        r.add(gs, Symbol(SYM_HASH), State(STM_GS_SK1), Symbol(SYM_HASH), Dir::Right);
    }
    {
        let sk = State(STM_GS_SK1);
        let mut syms = bits_and_marked();
        syms.push(Symbol(SYM_SEMI));
        scan_right(r, sk, &syms);
        r.add(sk, Symbol(SYM_HASH), State(STM_RESTORE_STATE), Symbol(SYM_HASH), Dir::Right);
    }
    {
        let rs = State(STM_RESTORE_STATE);
        r.add(rs, Symbol(SYM_X), rs, Symbol(SYM_ZERO), Dir::Right);
        r.add(rs, Symbol(SYM_Y), rs, Symbol(SYM_ONE), Dir::Right);
        scan_right(r, rs, &bits());
        r.add(rs, Symbol(SYM_HASH), State(STM_BACK_TO_RULE), Symbol(SYM_HASH), Dir::Left);
    }
    {
        seek_star(r, State(STM_BACK_TO_RULE), State(SYM_SKIP_STATE));
    }
    {
        let ss = State(SYM_SKIP_STATE);
        scan_right(r, ss, &bits());
        r.add(ss, Symbol(SYM_PIPE), State(CMP_SYM_READ), Symbol(SYM_PIPE), Dir::Right);
    }
}

/// `acc` followed by the rules that `state_mismatch_rules` adds, in order.
pub open spec fn state_mismatch_rules_from(acc: Seq<ByteRule>) -> Seq<ByteRule> {
    let sf = State(CMP_ST_FAIL);
    let acc = acc + scan_rules(sf, seq![Symbol(SYM_ZERO), Symbol(SYM_ONE), Symbol(SYM_X), Symbol(SYM_Y)], Dir::Left);
    let acc = acc.push((sf, Symbol(SYM_HASH), State(STF_RESTORE_STATE), Symbol(SYM_HASH), Dir::Right));
    let rs = State(STF_RESTORE_STATE);
    let acc = acc.push((rs, Symbol(SYM_X), rs, Symbol(SYM_ZERO), Dir::Right));
    let acc = acc.push((rs, Symbol(SYM_Y), rs, Symbol(SYM_ONE), Dir::Right));
    let acc = acc + scan_rules(rs, seq![Symbol(SYM_ZERO), Symbol(SYM_ONE)], Dir::Right);
    let acc = acc.push((rs, Symbol(SYM_HASH), State(STF_FIND_STAR), Symbol(SYM_HASH), Dir::Left));
    let syms = (seq![Symbol(SYM_ZERO), Symbol(SYM_ONE), Symbol(SYM_X), Symbol(SYM_Y)] + seq![Symbol(SYM_SEMI), Symbol(SYM_HASH), Symbol(SYM_PIPE), Symbol(SYM_DOT), Symbol(SYM_L), Symbol(SYM_D)]);
    let acc = acc + scan_rules(State(STF_FIND_STAR), syms, Dir::Left);
    let acc = acc.push((State(STF_FIND_STAR), Symbol(SYM_STAR), State(STF_RESTORE_RULE), Symbol(SYM_DOT), Dir::Right));
    let rr = State(STF_RESTORE_RULE);
    let acc = acc.push((rr, Symbol(SYM_X), rr, Symbol(SYM_ZERO), Dir::Right));
    let acc = acc.push((rr, Symbol(SYM_Y), rr, Symbol(SYM_ONE), Dir::Right));
    let acc = acc + scan_rules(rr, seq![Symbol(SYM_ZERO), Symbol(SYM_ONE)], Dir::Right);
    let acc = acc.push((rr, Symbol(SYM_PIPE), State(STF_GO_PREV), Symbol(SYM_PIPE), Dir::Left));
    let gp = State(STF_GO_PREV);
    let acc = acc + scan_rules(gp, seq![Symbol(SYM_ZERO), Symbol(SYM_ONE)], Dir::Left);
    let acc = acc.push((gp, Symbol(SYM_DOT), State(MARK_RULE), Symbol(SYM_DOT), Dir::Left));
    acc
}

/// A state bit differs: restore the marks and try the rule before.
#[verifier::spinoff_prover]
#[verifier::rlimit(30)]
fn state_mismatch_rules(r: &mut RuleSet)
    requires
        built_before(old(r).rules@, 5),
    ensures
        built_before(final(r).rules@, 6),
        final(r).rules@ == state_mismatch_rules_from(old(r).rules@),
{
    {
        let sf = State(CMP_ST_FAIL);
        scan_left(r, sf, &bits_and_marked());
        r.add(sf, Symbol(SYM_HASH), State(STF_RESTORE_STATE), Symbol(SYM_HASH), Dir::Right);
    }
    {
        let rs = State(STF_RESTORE_STATE);
        r.add(rs, Symbol(SYM_X), rs, Symbol(SYM_ZERO), Dir::Right);
        r.add(rs, Symbol(SYM_Y), rs, Symbol(SYM_ONE), Dir::Right);
        scan_right(r, rs, &bits());
        r.add(rs, Symbol(SYM_HASH), State(STF_FIND_STAR), Symbol(SYM_HASH), Dir::Left);
    }
    {
        let syms = with(&bits_and_marked(), vec![Symbol(SYM_SEMI), Symbol(SYM_HASH), Symbol(SYM_PIPE), Symbol(SYM_DOT), Symbol(SYM_L), Symbol(SYM_D)]);
        scan_left(r, State(STF_FIND_STAR), &syms);
        r.add(State(STF_FIND_STAR), Symbol(SYM_STAR), State(STF_RESTORE_RULE), Symbol(SYM_DOT), Dir::Right);
    }
    {
        let rr = State(STF_RESTORE_RULE);
        r.add(rr, Symbol(SYM_X), rr, Symbol(SYM_ZERO), Dir::Right);
        r.add(rr, Symbol(SYM_Y), rr, Symbol(SYM_ONE), Dir::Right);
        scan_right(r, rr, &bits());
        r.add(rr, Symbol(SYM_PIPE), State(STF_GO_PREV), Symbol(SYM_PIPE), Dir::Left);
    }
    {
        let gp = State(STF_GO_PREV);
        scan_left(r, gp, &bits());
        r.add(gp, Symbol(SYM_DOT), State(MARK_RULE), Symbol(SYM_DOT), Dir::Left);
    }
}

/// `acc` followed by the rules that `compare_symbol_rules` adds, in order.
pub open spec fn compare_symbol_rules_from(acc: Seq<ByteRule>) -> Seq<ByteRule> {
    let acc = acc.push((State(CMP_SYM_READ), Symbol(SYM_ZERO), State(CMP_SYM_C0), Symbol(SYM_X), Dir::Right));
    let acc = acc.push((State(CMP_SYM_READ), Symbol(SYM_ONE), State(CMP_SYM_C1), Symbol(SYM_Y), Dir::Right));
    let acc = acc.push((State(CMP_SYM_READ), Symbol(SYM_PIPE), State(SYM_MATCH_CLEANUP), Symbol(SYM_PIPE), Dir::Right));
    let acc = compare_symbol_bit_from(acc, 0);
    let acc = compare_symbol_bit_from(acc, 1);
    acc
}

/// PHASE 3: compare the marked rule's symbol bits with the head cell.
#[verifier::spinoff_prover]
#[verifier::rlimit(30)]
fn compare_symbol_rules(r: &mut RuleSet)
    requires
        built_before(old(r).rules@, 6),
    ensures
        built_before(final(r).rules@, 7),
        final(r).rules@ == compare_symbol_rules_from(old(r).rules@),
{
    r.add(State(CMP_SYM_READ), Symbol(SYM_ZERO), State(CMP_SYM_C0), Symbol(SYM_X), Dir::Right);
    r.add(State(CMP_SYM_READ), Symbol(SYM_ONE), State(CMP_SYM_C1), Symbol(SYM_Y), Dir::Right);
    r.add(State(CMP_SYM_READ), Symbol(SYM_PIPE), State(SYM_MATCH_CLEANUP), Symbol(SYM_PIPE), Dir::Right);
    compare_symbol_bit(r, 0);
    compare_symbol_bit(r, 1);
}

/// `acc` followed by the rules that `symbol_bit_matched_rules` adds, in order.
pub open spec fn symbol_bit_matched_rules_from(acc: Seq<ByteRule>) -> Seq<ByteRule> {
    let acc = acc + seek_star_rules(State(CMP_SYM_OK), State(CMP_SYM_NEXTBIT));
    let nb = State(CMP_SYM_NEXTBIT);
    let acc = acc + scan_rules(nb, seq![Symbol(SYM_ZERO), Symbol(SYM_ONE)], Dir::Right);
    let acc = acc.push((nb, Symbol(SYM_PIPE), State(CMP_SYM_NB2), Symbol(SYM_PIPE), Dir::Right));
    let nb2 = State(CMP_SYM_NB2);
    let acc = acc + scan_rules(nb2, seq![Symbol(SYM_X), Symbol(SYM_Y)], Dir::Right);
    let acc = acc.push((nb2, Symbol(SYM_ZERO), State(CMP_SYM_C0), Symbol(SYM_X), Dir::Right));
    let acc = acc.push((nb2, Symbol(SYM_ONE), State(CMP_SYM_C1), Symbol(SYM_Y), Dir::Right));
    let acc = acc.push((nb2, Symbol(SYM_PIPE), State(SYM_MATCH_CLEANUP), Symbol(SYM_PIPE), Dir::Right));
    acc
}

/// A symbol bit matched: return to `*` to read the next bit.
#[verifier::spinoff_prover]
#[verifier::rlimit(30)]
fn symbol_bit_matched_rules(r: &mut RuleSet)
    requires
        built_before(old(r).rules@, 7),
    ensures
        built_before(final(r).rules@, 8),
        final(r).rules@ == symbol_bit_matched_rules_from(old(r).rules@),
{
    {
        seek_star(r, State(CMP_SYM_OK), State(CMP_SYM_NEXTBIT));
        let nb = State(CMP_SYM_NEXTBIT);
        scan_right(r, nb, &bits());
        r.add(nb, Symbol(SYM_PIPE), State(CMP_SYM_NB2), Symbol(SYM_PIPE), Dir::Right);
    }
    {
        let nb2 = State(CMP_SYM_NB2);
        scan_right(r, nb2, &marked_bits());
        r.add(nb2, Symbol(SYM_ZERO), State(CMP_SYM_C0), Symbol(SYM_X), Dir::Right);
        r.add(nb2, Symbol(SYM_ONE), State(CMP_SYM_C1), Symbol(SYM_Y), Dir::Right);
        r.add(nb2, Symbol(SYM_PIPE), State(SYM_MATCH_CLEANUP), Symbol(SYM_PIPE), Dir::Right);
    }
}

/// `acc` followed by the rules that `symbol_mismatch_rules` adds, in order.
pub open spec fn symbol_mismatch_rules_from(acc: Seq<ByteRule>) -> Seq<ByteRule> {
    let sf = State(CMP_SYM_FAIL);
    let acc = acc + scan_rules(sf, seq![Symbol(SYM_ZERO), Symbol(SYM_ONE), Symbol(SYM_X), Symbol(SYM_Y)], Dir::Left);
    let acc = acc.push((sf, Symbol(SYM_CARET), State(SYMF_REST_HEAD), Symbol(SYM_CARET), Dir::Right));
    let rh = State(SYMF_REST_HEAD);
    let acc = acc.push((rh, Symbol(SYM_X), rh, Symbol(SYM_ZERO), Dir::Right));
    let acc = acc.push((rh, Symbol(SYM_Y), rh, Symbol(SYM_ONE), Dir::Right));
    let acc = acc + scan_rules(rh, seq![Symbol(SYM_ZERO), Symbol(SYM_ONE)], Dir::Right);
    let acc = acc.push((rh, Symbol(SYM_COMMA), State(SYMF_SEEK_STAR), Symbol(SYM_COMMA), Dir::Left));
    let acc = acc.push((rh, Symbol(SYM_BLANK), State(SYMF_SEEK_STAR), Symbol(SYM_BLANK), Dir::Left));
    let acc = acc + seek_star_rules(State(SYMF_SEEK_STAR), State(SYMF_SKIP_ST));
    let ss = State(SYMF_SKIP_ST);
    let acc = acc + scan_rules(ss, seq![Symbol(SYM_ZERO), Symbol(SYM_ONE)], Dir::Right);
    let acc = acc.push((ss, Symbol(SYM_PIPE), State(SYMF_REST_SYM), Symbol(SYM_PIPE), Dir::Right));
    let rs = State(SYMF_REST_SYM);
    let acc = acc.push((rs, Symbol(SYM_X), rs, Symbol(SYM_ZERO), Dir::Right));
    let acc = acc.push((rs, Symbol(SYM_Y), rs, Symbol(SYM_ONE), Dir::Right));
    let acc = acc + scan_rules(rs, seq![Symbol(SYM_ZERO), Symbol(SYM_ONE)], Dir::Right);
    let acc = acc.push((rs, Symbol(SYM_PIPE), State(SYMF_DEACTIVATE), Symbol(SYM_PIPE), Dir::Left));
    let da = State(SYMF_DEACTIVATE);
    let syms = seq![Symbol(SYM_ZERO), Symbol(SYM_ONE)];
    let syms = syms.push(Symbol(SYM_PIPE));
    let acc = acc + scan_rules(da, syms, Dir::Left);
    let acc = acc.push((da, Symbol(SYM_STAR), State(MARK_RULE), Symbol(SYM_DOT), Dir::Left));
    acc
}

/// A symbol bit differs: restore the marks and try the rule before.
#[verifier::spinoff_prover]
#[verifier::rlimit(30)]
fn symbol_mismatch_rules(r: &mut RuleSet)
    requires
        built_before(old(r).rules@, 8),
    ensures
        built_before(final(r).rules@, 9),
        final(r).rules@ == symbol_mismatch_rules_from(old(r).rules@),
{
    {
        let sf = State(CMP_SYM_FAIL);
        scan_left(r, sf, &bits_and_marked());
        r.add(sf, Symbol(SYM_CARET), State(SYMF_REST_HEAD), Symbol(SYM_CARET), Dir::Right);
    }
    {
        let rh = State(SYMF_REST_HEAD);
        r.add(rh, Symbol(SYM_X), rh, Symbol(SYM_ZERO), Dir::Right);
        r.add(rh, Symbol(SYM_Y), rh, Symbol(SYM_ONE), Dir::Right);
        scan_right(r, rh, &bits());
        r.add(rh, Symbol(SYM_COMMA), State(SYMF_SEEK_STAR), Symbol(SYM_COMMA), Dir::Left);
        r.add(rh, Symbol(SYM_BLANK), State(SYMF_SEEK_STAR), Symbol(SYM_BLANK), Dir::Left);
    }
    {
        seek_star(r, State(SYMF_SEEK_STAR), State(SYMF_SKIP_ST));
    }
    {
        let ss = State(SYMF_SKIP_ST);
        scan_right(r, ss, &bits());
        r.add(ss, Symbol(SYM_PIPE), State(SYMF_REST_SYM), Symbol(SYM_PIPE), Dir::Right);
    }
    {
        let rs = State(SYMF_REST_SYM);
        r.add(rs, Symbol(SYM_X), rs, Symbol(SYM_ZERO), Dir::Right);
        r.add(rs, Symbol(SYM_Y), rs, Symbol(SYM_ONE), Dir::Right);
        scan_right(r, rs, &bits());
        r.add(rs, Symbol(SYM_PIPE), State(SYMF_DEACTIVATE), Symbol(SYM_PIPE), Dir::Left);
    }
    {
        let da = State(SYMF_DEACTIVATE);
        let mut syms = bits();
        syms.push(Symbol(SYM_PIPE));
        scan_left(r, da, &syms);
        r.add(da, Symbol(SYM_STAR), State(MARK_RULE), Symbol(SYM_DOT), Dir::Left);
    }
}

/// `acc` followed by the rules that `symbol_match_cleanup_rules` adds, in order.
pub open spec fn symbol_match_cleanup_rules_from(acc: Seq<ByteRule>) -> Seq<ByteRule> {
    let sc = State(SYM_MATCH_CLEANUP);
    let syms = (seq![Symbol(SYM_ZERO), Symbol(SYM_ONE), Symbol(SYM_X), Symbol(SYM_Y), Symbol(SYM_PIPE), Symbol(SYM_L), Symbol(SYM_D)] + seq![Symbol(SYM_SEMI), Symbol(SYM_DOT)]);
    let acc = acc + scan_rules(sc, syms, Dir::Right);
    let acc = acc.push((sc, Symbol(SYM_HASH), State(SMC_S1), Symbol(SYM_HASH), Dir::Right));
    let s1 = State(SMC_S1);
    let syms = seq![Symbol(SYM_ZERO), Symbol(SYM_ONE), Symbol(SYM_X), Symbol(SYM_Y)];
    let syms = syms.push(Symbol(SYM_SEMI));
    let acc = acc + scan_rules(s1, syms, Dir::Right);
    let acc = acc.push((s1, Symbol(SYM_HASH), State(SMC_S2), Symbol(SYM_HASH), Dir::Right));
    let s2 = State(SMC_S2);
    let acc = acc + scan_rules(s2, seq![Symbol(SYM_ZERO), Symbol(SYM_ONE), Symbol(SYM_X), Symbol(SYM_Y)], Dir::Right);
    let acc = acc.push((s2, Symbol(SYM_HASH), State(SMC_S3), Symbol(SYM_HASH), Dir::Right));
    let s3 = State(SMC_S3);
    let acc = acc + scan_rules(s3, seq![Symbol(SYM_ZERO), Symbol(SYM_ONE)], Dir::Right);
    let acc = acc.push((s3, Symbol(SYM_HASH), State(SMC_FH), Symbol(SYM_HASH), Dir::Right));
    acc
}

/// The whole symbol matched: go to the head cell.
#[verifier::spinoff_prover]
#[verifier::rlimit(30)]
fn symbol_match_cleanup_rules(r: &mut RuleSet)
    requires
        built_before(old(r).rules@, 9),
    ensures
        built_before(final(r).rules@, 10),
        final(r).rules@ == symbol_match_cleanup_rules_from(old(r).rules@),
{
    {
        let sc = State(SYM_MATCH_CLEANUP);
        let syms = with(&rule_internals(), vec![Symbol(SYM_SEMI), Symbol(SYM_DOT)]);
        scan_right(r, sc, &syms);
        r.add(sc, Symbol(SYM_HASH), State(SMC_S1), Symbol(SYM_HASH), Dir::Right);
    }
    {
        let s1 = State(SMC_S1);
        let mut syms = bits_and_marked();
        syms.push(Symbol(SYM_SEMI));
        scan_right(r, s1, &syms);
        r.add(s1, Symbol(SYM_HASH), State(SMC_S2), Symbol(SYM_HASH), Dir::Right);
    }
    {
        let s2 = State(SMC_S2);
        scan_right(r, s2, &bits_and_marked());
        r.add(s2, Symbol(SYM_HASH), State(SMC_S3), Symbol(SYM_HASH), Dir::Right);
    }
    {
        let s3 = State(SMC_S3);
        scan_right(r, s3, &bits());
        r.add(s3, Symbol(SYM_HASH), State(SMC_FH), Symbol(SYM_HASH), Dir::Right);
    }
}

/// `acc` followed by the rules that `symbol_match_restore_rules` adds, in order.
pub open spec fn symbol_match_restore_rules_from(acc: Seq<ByteRule>) -> Seq<ByteRule> {
    let fh = State(SMC_FH);
    let syms = seq![Symbol(SYM_ZERO), Symbol(SYM_ONE), Symbol(SYM_X), Symbol(SYM_Y)];
    let syms = syms.push(Symbol(SYM_COMMA));
    let acc = acc + scan_rules(fh, syms, Dir::Right);
    let acc = acc.push((fh, Symbol(SYM_CARET), State(SMC_REST_HEAD), Symbol(SYM_CARET), Dir::Right));
    let rh = State(SMC_REST_HEAD);
    let acc = acc.push((rh, Symbol(SYM_X), rh, Symbol(SYM_ZERO), Dir::Right));
    let acc = acc.push((rh, Symbol(SYM_Y), rh, Symbol(SYM_ONE), Dir::Right));
    let acc = acc + scan_rules(rh, seq![Symbol(SYM_ZERO), Symbol(SYM_ONE)], Dir::Right);
    let acc = acc.push((rh, Symbol(SYM_COMMA), State(SMC_REST_DONE), Symbol(SYM_COMMA), Dir::Left));
    let acc = acc.push((rh, Symbol(SYM_BLANK), State(SMC_REST_DONE), Symbol(SYM_BLANK), Dir::Left));
    let acc = acc + seek_star_rules(State(SMC_REST_DONE), State(SMC_SKIP_ST));
    let ss = State(SMC_SKIP_ST);
    let acc = acc + scan_rules(ss, seq![Symbol(SYM_ZERO), Symbol(SYM_ONE)], Dir::Right);
    let acc = acc.push((ss, Symbol(SYM_PIPE), State(SMC_REST_SYM), Symbol(SYM_PIPE), Dir::Right));
    let rs = State(SMC_REST_SYM);
    let acc = acc.push((rs, Symbol(SYM_X), rs, Symbol(SYM_ZERO), Dir::Right));
    let acc = acc.push((rs, Symbol(SYM_Y), rs, Symbol(SYM_ONE), Dir::Right));
    let acc = acc + scan_rules(rs, seq![Symbol(SYM_ZERO), Symbol(SYM_ONE)], Dir::Right);
    let acc = acc.push((rs, Symbol(SYM_PIPE), State(APPLY_READ_NST), Symbol(SYM_PIPE), Dir::Right));
    acc
}

/// Restore the marks of the head cell and of the rule's symbol field.
#[verifier::spinoff_prover]
#[verifier::rlimit(30)]
fn symbol_match_restore_rules(r: &mut RuleSet)
    requires
        built_before(old(r).rules@, 10),
    ensures
        built_before(final(r).rules@, 11),
        final(r).rules@ == symbol_match_restore_rules_from(old(r).rules@),
{
    {
        let fh = State(SMC_FH);
        let mut syms = bits_and_marked();
        syms.push(Symbol(SYM_COMMA));
        scan_right(r, fh, &syms);
        r.add(fh, Symbol(SYM_CARET), State(SMC_REST_HEAD), Symbol(SYM_CARET), Dir::Right);
    }
    {
        let rh = State(SMC_REST_HEAD);
        r.add(rh, Symbol(SYM_X), rh, Symbol(SYM_ZERO), Dir::Right);
        r.add(rh, Symbol(SYM_Y), rh, Symbol(SYM_ONE), Dir::Right);
        scan_right(r, rh, &bits());
        r.add(rh, Symbol(SYM_COMMA), State(SMC_REST_DONE), Symbol(SYM_COMMA), Dir::Left);
        r.add(rh, Symbol(SYM_BLANK), State(SMC_REST_DONE), Symbol(SYM_BLANK), Dir::Left);
    }
    {
        seek_star(r, State(SMC_REST_DONE), State(SMC_SKIP_ST));
    }
    {
        let ss = State(SMC_SKIP_ST);
        scan_right(r, ss, &bits());
        r.add(ss, Symbol(SYM_PIPE), State(SMC_REST_SYM), Symbol(SYM_PIPE), Dir::Right);
    }
    {
        let rs = State(SMC_REST_SYM);
        r.add(rs, Symbol(SYM_X), rs, Symbol(SYM_ZERO), Dir::Right);
        r.add(rs, Symbol(SYM_Y), rs, Symbol(SYM_ONE), Dir::Right);
        scan_right(r, rs, &bits());
        r.add(rs, Symbol(SYM_PIPE), State(APPLY_READ_NST), Symbol(SYM_PIPE), Dir::Right);
    }
}

/// `acc` followed by the rules that `copy_state_rules` adds, in order.
pub open spec fn copy_state_rules_from(acc: Seq<ByteRule>) -> Seq<ByteRule> {
    let acc = acc.push((State(APPLY_READ_NST), Symbol(SYM_ZERO), State(CP_NST_C0), Symbol(SYM_X), Dir::Right));
    let acc = acc.push((State(APPLY_READ_NST), Symbol(SYM_ONE), State(CP_NST_C1), Symbol(SYM_Y), Dir::Right));
    let acc = acc.push((State(APPLY_READ_NST), Symbol(SYM_PIPE), State(CP_NST_DONE), Symbol(SYM_PIPE), Dir::Left));
    let acc = copy_state_bit_from(acc, 0);
    let acc = copy_state_bit_from(acc, 1);
    let acc = acc + seek_star_rules(State(CP_NST_RET), State(CP_NST_NEXT));
    let n = State(CP_NST_NEXT);
    let acc = acc + scan_rules(n, seq![Symbol(SYM_ZERO), Symbol(SYM_ONE)], Dir::Right);
    let acc = acc.push((n, Symbol(SYM_PIPE), State(CP_NST_NEXT2), Symbol(SYM_PIPE), Dir::Right));
    let n2 = State(CP_NST_NEXT2);
    let acc = acc + scan_rules(n2, seq![Symbol(SYM_ZERO), Symbol(SYM_ONE)], Dir::Right);
    let acc = acc.push((n2, Symbol(SYM_PIPE), State(CP_NST_NEXT3), Symbol(SYM_PIPE), Dir::Right));
    let n3 = State(CP_NST_NEXT3);
    let acc = acc + scan_rules(n3, seq![Symbol(SYM_X), Symbol(SYM_Y)], Dir::Right);
    let acc = acc.push((n3, Symbol(SYM_ZERO), State(CP_NST_C0), Symbol(SYM_X), Dir::Right));
    let acc = acc.push((n3, Symbol(SYM_ONE), State(CP_NST_C1), Symbol(SYM_Y), Dir::Right));
    let acc = acc.push((n3, Symbol(SYM_PIPE), State(CP_NST_DONE), Symbol(SYM_PIPE), Dir::Left));
    acc
}

/// PHASE 4: copy the rule's new state into the state section.
#[verifier::spinoff_prover]
#[verifier::rlimit(30)]
fn copy_state_rules(r: &mut RuleSet)
    requires
        built_before(old(r).rules@, 11),
    ensures
        built_before(final(r).rules@, 12),
        final(r).rules@ == copy_state_rules_from(old(r).rules@),
{
    r.add(State(APPLY_READ_NST), Symbol(SYM_ZERO), State(CP_NST_C0), Symbol(SYM_X), Dir::Right);
    r.add(State(APPLY_READ_NST), Symbol(SYM_ONE), State(CP_NST_C1), Symbol(SYM_Y), Dir::Right);
    r.add(State(APPLY_READ_NST), Symbol(SYM_PIPE), State(CP_NST_DONE), Symbol(SYM_PIPE), Dir::Left);
    copy_state_bit(r, 0);
    copy_state_bit(r, 1);
    {
        seek_star(r, State(CP_NST_RET), State(CP_NST_NEXT));
    }
    {
        let n = State(CP_NST_NEXT);
        scan_right(r, n, &bits());
        r.add(n, Symbol(SYM_PIPE), State(CP_NST_NEXT2), Symbol(SYM_PIPE), Dir::Right);
    }
    {
        let n2 = State(CP_NST_NEXT2);
        scan_right(r, n2, &bits());
        r.add(n2, Symbol(SYM_PIPE), State(CP_NST_NEXT3), Symbol(SYM_PIPE), Dir::Right);
    }
    {
        let n3 = State(CP_NST_NEXT3);
        scan_right(r, n3, &marked_bits());
        r.add(n3, Symbol(SYM_ZERO), State(CP_NST_C0), Symbol(SYM_X), Dir::Right);
        r.add(n3, Symbol(SYM_ONE), State(CP_NST_C1), Symbol(SYM_Y), Dir::Right);
        r.add(n3, Symbol(SYM_PIPE), State(CP_NST_DONE), Symbol(SYM_PIPE), Dir::Left);
    }
}

/// `acc` followed by the rules that `copy_state_done_rules` adds, in order.
pub open spec fn copy_state_done_rules_from(acc: Seq<ByteRule>) -> Seq<ByteRule> {
    let d = State(CP_NST_DONE);
    let acc = acc.push((d, Symbol(SYM_X), d, Symbol(SYM_ZERO), Dir::Left));
    let acc = acc.push((d, Symbol(SYM_Y), d, Symbol(SYM_ONE), Dir::Left));
    let acc = acc.push((d, Symbol(SYM_PIPE), State(CP_NST_REST_NAV), Symbol(SYM_PIPE), Dir::Right));
    let nav = State(CP_NST_REST_NAV);
    let syms = (seq![Symbol(SYM_ZERO), Symbol(SYM_ONE), Symbol(SYM_X), Symbol(SYM_Y), Symbol(SYM_PIPE), Symbol(SYM_L), Symbol(SYM_D)] + seq![Symbol(SYM_SEMI), Symbol(SYM_DOT)]);
    let acc = acc + scan_rules(nav, syms, Dir::Right);
    let acc = acc.push((nav, Symbol(SYM_HASH), State(CP_NST_REST_S1), Symbol(SYM_HASH), Dir::Right));
    let s1 = State(CP_NST_REST_S1);
    let syms = seq![Symbol(SYM_ZERO), Symbol(SYM_ONE)];
    let syms = syms.push(Symbol(SYM_SEMI));
    let acc = acc + scan_rules(s1, syms, Dir::Right);
    let acc = acc.push((s1, Symbol(SYM_HASH), State(CP_NST_REST_DO), Symbol(SYM_HASH), Dir::Right));
    let rd = State(CP_NST_REST_DO);
    let acc = acc.push((rd, Symbol(SYM_X), rd, Symbol(SYM_ZERO), Dir::Right));
    let acc = acc.push((rd, Symbol(SYM_Y), rd, Symbol(SYM_ONE), Dir::Right));
    let acc = acc + scan_rules(rd, seq![Symbol(SYM_ZERO), Symbol(SYM_ONE)], Dir::Right);
    let acc = acc.push((rd, Symbol(SYM_HASH), State(CP_NSYM_SEEK), Symbol(SYM_HASH), Dir::Left));
    let acc = acc + seek_star_rules(State(CP_NSYM_SEEK), State(CP_NSYM_NAV));
    acc
}

/// The new state is written: restore the marks and go on to the new symbol.
#[verifier::spinoff_prover]
#[verifier::rlimit(30)]
fn copy_state_done_rules(r: &mut RuleSet)
    requires
        built_before(old(r).rules@, 12),
    ensures
        built_before(final(r).rules@, 13),
        final(r).rules@ == copy_state_done_rules_from(old(r).rules@),
{
    {
        let d = State(CP_NST_DONE);
        r.add(d, Symbol(SYM_X), d, Symbol(SYM_ZERO), Dir::Left);
        r.add(d, Symbol(SYM_Y), d, Symbol(SYM_ONE), Dir::Left);
        r.add(d, Symbol(SYM_PIPE), State(CP_NST_REST_NAV), Symbol(SYM_PIPE), Dir::Right);
    }
    {
        let nav = State(CP_NST_REST_NAV);
        let syms = with(&rule_internals(), vec![Symbol(SYM_SEMI), Symbol(SYM_DOT)]);
        scan_right(r, nav, &syms);
        r.add(nav, Symbol(SYM_HASH), State(CP_NST_REST_S1), Symbol(SYM_HASH), Dir::Right);
    }
    {
        let s1 = State(CP_NST_REST_S1);
        let mut syms = bits();
        syms.push(Symbol(SYM_SEMI));
        scan_right(r, s1, &syms);
        r.add(s1, Symbol(SYM_HASH), State(CP_NST_REST_DO), Symbol(SYM_HASH), Dir::Right);
    }
    {
        let rd = State(CP_NST_REST_DO);
        r.add(rd, Symbol(SYM_X), rd, Symbol(SYM_ZERO), Dir::Right);
        r.add(rd, Symbol(SYM_Y), rd, Symbol(SYM_ONE), Dir::Right);
        scan_right(r, rd, &bits());
        r.add(rd, Symbol(SYM_HASH), State(CP_NSYM_SEEK), Symbol(SYM_HASH), Dir::Left);
    }
    {
        seek_star(r, State(CP_NSYM_SEEK), State(CP_NSYM_NAV));
    }
}

/// `acc` followed by the rules that `copy_symbol_nav_rules` adds, in order.
pub open spec fn copy_symbol_nav_rules_from(acc: Seq<ByteRule>) -> Seq<ByteRule> {
    let n = State(CP_NSYM_NAV);
    let acc = acc + scan_rules(n, seq![Symbol(SYM_ZERO), Symbol(SYM_ONE)], Dir::Right);
    let acc = acc.push((n, Symbol(SYM_PIPE), State(CP_NSYM_NAV2), Symbol(SYM_PIPE), Dir::Right));
    let n2 = State(CP_NSYM_NAV2);
    let acc = acc + scan_rules(n2, seq![Symbol(SYM_ZERO), Symbol(SYM_ONE)], Dir::Right);
    let acc = acc.push((n2, Symbol(SYM_PIPE), State(CP_NSYM_NAV3), Symbol(SYM_PIPE), Dir::Right));
    let n3 = State(CP_NSYM_NAV3);
    let acc = acc + scan_rules(n3, seq![Symbol(SYM_ZERO), Symbol(SYM_ONE)], Dir::Right);
    let acc = acc.push((n3, Symbol(SYM_PIPE), State(CP_NSYM_READ), Symbol(SYM_PIPE), Dir::Right));
    let acc = acc.push((State(CP_NSYM_READ), Symbol(SYM_ZERO), State(CP_NSYM_C0), Symbol(SYM_X), Dir::Right));
    let acc = acc.push((State(CP_NSYM_READ), Symbol(SYM_ONE), State(CP_NSYM_C1), Symbol(SYM_Y), Dir::Right));
    let acc = acc.push((State(CP_NSYM_READ), Symbol(SYM_PIPE), State(CP_NSYM_DONE), Symbol(SYM_PIPE), Dir::Left));
    acc
}

/// PHASE 5: find the rule's new symbol.
#[verifier::spinoff_prover]
#[verifier::rlimit(30)]
fn copy_symbol_nav_rules(r: &mut RuleSet)
    requires
        built_before(old(r).rules@, 13),
    ensures
        built_before(final(r).rules@, 14),
        final(r).rules@ == copy_symbol_nav_rules_from(old(r).rules@),
{
    {
        let n = State(CP_NSYM_NAV);
        scan_right(r, n, &bits());
        r.add(n, Symbol(SYM_PIPE), State(CP_NSYM_NAV2), Symbol(SYM_PIPE), Dir::Right);
    }
    {
        let n2 = State(CP_NSYM_NAV2);
        scan_right(r, n2, &bits());
        r.add(n2, Symbol(SYM_PIPE), State(CP_NSYM_NAV3), Symbol(SYM_PIPE), Dir::Right);
    }
    {
        let n3 = State(CP_NSYM_NAV3);
        scan_right(r, n3, &bits());
        r.add(n3, Symbol(SYM_PIPE), State(CP_NSYM_READ), Symbol(SYM_PIPE), Dir::Right);
    }
    r.add(State(CP_NSYM_READ), Symbol(SYM_ZERO), State(CP_NSYM_C0), Symbol(SYM_X), Dir::Right);
    r.add(State(CP_NSYM_READ), Symbol(SYM_ONE), State(CP_NSYM_C1), Symbol(SYM_Y), Dir::Right);
    r.add(State(CP_NSYM_READ), Symbol(SYM_PIPE), State(CP_NSYM_DONE), Symbol(SYM_PIPE), Dir::Left);
}

/// `acc` followed by the rules that `copy_symbol_carry_rules` adds, in order.
pub open spec fn copy_symbol_carry_rules_from(acc: Seq<ByteRule>) -> Seq<ByteRule> {
    let acc = copy_symbol_bit_from(acc, 0);
    let acc = copy_symbol_bit_from(acc, 1);
    let acc = acc + seek_star_rules(State(CP_NSYM_RET), State(CP_NSYM_FNEXT));
    let fn_ = State(CP_NSYM_FNEXT);
    let acc = acc + scan_rules(fn_, seq![Symbol(SYM_ZERO), Symbol(SYM_ONE)], Dir::Right);
    let acc = acc.push((fn_, Symbol(SYM_PIPE), State(CP_NSYM_FN2), Symbol(SYM_PIPE), Dir::Right));
    let fn2 = State(CP_NSYM_FN2);
    let acc = acc + scan_rules(fn2, seq![Symbol(SYM_ZERO), Symbol(SYM_ONE)], Dir::Right);
    let acc = acc.push((fn2, Symbol(SYM_PIPE), State(CP_NSYM_FN3), Symbol(SYM_PIPE), Dir::Right));
    let fn3 = State(CP_NSYM_FN3);
    let acc = acc + scan_rules(fn3, seq![Symbol(SYM_ZERO), Symbol(SYM_ONE)], Dir::Right);
    let acc = acc.push((fn3, Symbol(SYM_PIPE), State(CP_NSYM_FN4), Symbol(SYM_PIPE), Dir::Right));
    let fn4 = State(CP_NSYM_FN4);
    let acc = acc + scan_rules(fn4, seq![Symbol(SYM_X), Symbol(SYM_Y)], Dir::Right);
    let acc = acc.push((fn4, Symbol(SYM_ZERO), State(CP_NSYM_C0), Symbol(SYM_X), Dir::Right));
    let acc = acc.push((fn4, Symbol(SYM_ONE), State(CP_NSYM_C1), Symbol(SYM_Y), Dir::Right));
    let acc = acc.push((fn4, Symbol(SYM_PIPE), State(CP_NSYM_DONE), Symbol(SYM_PIPE), Dir::Left));
    acc
}

/// Carry each bit of the new symbol to the head cell.
#[verifier::spinoff_prover]
#[verifier::rlimit(30)]
fn copy_symbol_carry_rules(r: &mut RuleSet)
    requires
        built_before(old(r).rules@, 14),
    ensures
        built_before(final(r).rules@, 15),
        final(r).rules@ == copy_symbol_carry_rules_from(old(r).rules@),
{
    copy_symbol_bit(r, 0);
    copy_symbol_bit(r, 1);
    {
        seek_star(r, State(CP_NSYM_RET), State(CP_NSYM_FNEXT));
    }
    {
        let fn_ = State(CP_NSYM_FNEXT);
        scan_right(r, fn_, &bits());
        r.add(fn_, Symbol(SYM_PIPE), State(CP_NSYM_FN2), Symbol(SYM_PIPE), Dir::Right);
    }
    {
        let fn2 = State(CP_NSYM_FN2);
        scan_right(r, fn2, &bits());
        r.add(fn2, Symbol(SYM_PIPE), State(CP_NSYM_FN3), Symbol(SYM_PIPE), Dir::Right);
    }
    {
        let fn3 = State(CP_NSYM_FN3);
        scan_right(r, fn3, &bits());
        r.add(fn3, Symbol(SYM_PIPE), State(CP_NSYM_FN4), Symbol(SYM_PIPE), Dir::Right);
    }
    {
        let fn4 = State(CP_NSYM_FN4);
        scan_right(r, fn4, &marked_bits());
        r.add(fn4, Symbol(SYM_ZERO), State(CP_NSYM_C0), Symbol(SYM_X), Dir::Right);
        r.add(fn4, Symbol(SYM_ONE), State(CP_NSYM_C1), Symbol(SYM_Y), Dir::Right);
        r.add(fn4, Symbol(SYM_PIPE), State(CP_NSYM_DONE), Symbol(SYM_PIPE), Dir::Left);
    }
}

/// `acc` followed by the rules that `copy_symbol_done_rules` adds, in order.
pub open spec fn copy_symbol_done_rules_from(acc: Seq<ByteRule>) -> Seq<ByteRule> {
    let d = State(CP_NSYM_DONE);
    let acc = acc.push((d, Symbol(SYM_X), d, Symbol(SYM_ZERO), Dir::Left));
    let acc = acc.push((d, Symbol(SYM_Y), d, Symbol(SYM_ONE), Dir::Left));
    let acc = acc.push((d, Symbol(SYM_PIPE), State(CP_NSYM_REST_NAV), Symbol(SYM_PIPE), Dir::Right));
    let nav = State(CP_NSYM_REST_NAV);
    let syms = (seq![Symbol(SYM_ZERO), Symbol(SYM_ONE), Symbol(SYM_X), Symbol(SYM_Y), Symbol(SYM_PIPE), Symbol(SYM_L), Symbol(SYM_D)] + seq![Symbol(SYM_SEMI), Symbol(SYM_DOT)]);
    let acc = acc + scan_rules(nav, syms, Dir::Right);
    let acc = acc.push((nav, Symbol(SYM_HASH), State(CP_NSYM_RN_S1), Symbol(SYM_HASH), Dir::Right));
    let s1 = State(CP_NSYM_RN_S1);
    let syms = seq![Symbol(SYM_ZERO), Symbol(SYM_ONE)];
    let syms = syms.push(Symbol(SYM_SEMI));
    let acc = acc + scan_rules(s1, syms, Dir::Right);
    let acc = acc.push((s1, Symbol(SYM_HASH), State(CP_NSYM_RN_S2), Symbol(SYM_HASH), Dir::Right));
    let s2 = State(CP_NSYM_RN_S2);
    let acc = acc + scan_rules(s2, seq![Symbol(SYM_ZERO), Symbol(SYM_ONE)], Dir::Right);
    let acc = acc.push((s2, Symbol(SYM_HASH), State(CP_NSYM_RN_S3), Symbol(SYM_HASH), Dir::Right));
    let s3 = State(CP_NSYM_RN_S3);
    let acc = acc + scan_rules(s3, seq![Symbol(SYM_ZERO), Symbol(SYM_ONE)], Dir::Right);
    let acc = acc.push((s3, Symbol(SYM_HASH), State(CP_NSYM_RN_FH), Symbol(SYM_HASH), Dir::Right));
    let fh = State(CP_NSYM_RN_FH);
    let syms = seq![Symbol(SYM_ZERO), Symbol(SYM_ONE)];
    let syms = syms.push(Symbol(SYM_COMMA));
    let acc = acc + scan_rules(fh, syms, Dir::Right);
    let acc = acc.push((fh, Symbol(SYM_CARET), State(CP_NSYM_RN_DO), Symbol(SYM_CARET), Dir::Right));
    let rd = State(CP_NSYM_RN_DO);
    let acc = acc.push((rd, Symbol(SYM_X), rd, Symbol(SYM_ZERO), Dir::Right));
    let acc = acc.push((rd, Symbol(SYM_Y), rd, Symbol(SYM_ONE), Dir::Right));
    let acc = acc + scan_rules(rd, seq![Symbol(SYM_ZERO), Symbol(SYM_ONE)], Dir::Right);
    let acc = acc.push((rd, Symbol(SYM_COMMA), State(READ_DIR), Symbol(SYM_COMMA), Dir::Left));
    let acc = acc.push((rd, Symbol(SYM_BLANK), State(READ_DIR), Symbol(SYM_BLANK), Dir::Left));
    acc
}

/// The new symbol is written: restore its field and the head cell.
#[verifier::spinoff_prover]
#[verifier::rlimit(30)]
fn copy_symbol_done_rules(r: &mut RuleSet)
    requires
        built_before(old(r).rules@, 15),
    ensures
        built_before(final(r).rules@, 16),
        final(r).rules@ == copy_symbol_done_rules_from(old(r).rules@),
{
    {
        let d = State(CP_NSYM_DONE);
        r.add(d, Symbol(SYM_X), d, Symbol(SYM_ZERO), Dir::Left);
        r.add(d, Symbol(SYM_Y), d, Symbol(SYM_ONE), Dir::Left);
        r.add(d, Symbol(SYM_PIPE), State(CP_NSYM_REST_NAV), Symbol(SYM_PIPE), Dir::Right);
    }
    {
        let nav = State(CP_NSYM_REST_NAV);
        let syms = with(&rule_internals(), vec![Symbol(SYM_SEMI), Symbol(SYM_DOT)]);
        scan_right(r, nav, &syms);
        r.add(nav, Symbol(SYM_HASH), State(CP_NSYM_RN_S1), Symbol(SYM_HASH), Dir::Right);
    }
    {
        let s1 = State(CP_NSYM_RN_S1);
        let mut syms = bits();
        syms.push(Symbol(SYM_SEMI));
        scan_right(r, s1, &syms);
        r.add(s1, Symbol(SYM_HASH), State(CP_NSYM_RN_S2), Symbol(SYM_HASH), Dir::Right);
    }
    {
        let s2 = State(CP_NSYM_RN_S2);
        scan_right(r, s2, &bits());
        r.add(s2, Symbol(SYM_HASH), State(CP_NSYM_RN_S3), Symbol(SYM_HASH), Dir::Right);
    }
    {
        let s3 = State(CP_NSYM_RN_S3);
        scan_right(r, s3, &bits());
        r.add(s3, Symbol(SYM_HASH), State(CP_NSYM_RN_FH), Symbol(SYM_HASH), Dir::Right);
    }
    {
        let fh = State(CP_NSYM_RN_FH);
        let mut syms = bits();
        syms.push(Symbol(SYM_COMMA));
        scan_right(r, fh, &syms);
        r.add(fh, Symbol(SYM_CARET), State(CP_NSYM_RN_DO), Symbol(SYM_CARET), Dir::Right);
    }
    {
        let rd = State(CP_NSYM_RN_DO);
        r.add(rd, Symbol(SYM_X), rd, Symbol(SYM_ZERO), Dir::Right);
        r.add(rd, Symbol(SYM_Y), rd, Symbol(SYM_ONE), Dir::Right);
        scan_right(r, rd, &bits());
        r.add(rd, Symbol(SYM_COMMA), State(READ_DIR), Symbol(SYM_COMMA), Dir::Left);
        r.add(rd, Symbol(SYM_BLANK), State(READ_DIR), Symbol(SYM_BLANK), Dir::Left);
    }
}

/// `acc` followed by the rules that `read_direction_rules` adds, in order.
pub open spec fn read_direction_rules_from(acc: Seq<ByteRule>) -> Seq<ByteRule> {
    let acc = acc + seek_star_rules(State(READ_DIR), State(RD_SKIP_TO_DIR));
    let sk = State(RD_SKIP_TO_DIR);
    let acc = acc + scan_rules(sk, seq![Symbol(SYM_ZERO), Symbol(SYM_ONE)], Dir::Right);
    let acc = acc.push((sk, Symbol(SYM_PIPE), State(RD_SK2), Symbol(SYM_PIPE), Dir::Right));
    let sk2 = State(RD_SK2);
    let acc = acc + scan_rules(sk2, seq![Symbol(SYM_ZERO), Symbol(SYM_ONE)], Dir::Right);
    let acc = acc.push((sk2, Symbol(SYM_PIPE), State(RD_SK3), Symbol(SYM_PIPE), Dir::Right));
    let sk3 = State(RD_SK3);
    let acc = acc + scan_rules(sk3, seq![Symbol(SYM_ZERO), Symbol(SYM_ONE)], Dir::Right);
    let acc = acc.push((sk3, Symbol(SYM_PIPE), State(RD_SK4), Symbol(SYM_PIPE), Dir::Right));
    let sk4 = State(RD_SK4);
    let acc = acc + scan_rules(sk4, seq![Symbol(SYM_ZERO), Symbol(SYM_ONE)], Dir::Right);
    let acc = acc.push((sk4, Symbol(SYM_PIPE), State(RD_READ), Symbol(SYM_PIPE), Dir::Right));
    let acc = acc.push((State(RD_READ), Symbol(SYM_L), State(MOVE_LEFT), Symbol(SYM_L), Dir::Left));
    let acc = acc.push((State(RD_READ), Symbol(SYM_D), State(MOVE_RIGHT), Symbol(SYM_D), Dir::Left));
    acc
}

/// PHASE 6: read the rule's direction.
#[verifier::spinoff_prover]
#[verifier::rlimit(30)]
fn read_direction_rules(r: &mut RuleSet)
    requires
        built_before(old(r).rules@, 16),
    ensures
        built_before(final(r).rules@, 17),
        final(r).rules@ == read_direction_rules_from(old(r).rules@),
{
    {
        seek_star(r, State(READ_DIR), State(RD_SKIP_TO_DIR));
    }
    {
        let sk = State(RD_SKIP_TO_DIR);
        scan_right(r, sk, &bits());
        r.add(sk, Symbol(SYM_PIPE), State(RD_SK2), Symbol(SYM_PIPE), Dir::Right);
    }
    {
        let sk2 = State(RD_SK2);
        scan_right(r, sk2, &bits());
        r.add(sk2, Symbol(SYM_PIPE), State(RD_SK3), Symbol(SYM_PIPE), Dir::Right);
    }
    {
        let sk3 = State(RD_SK3);
        scan_right(r, sk3, &bits());
        r.add(sk3, Symbol(SYM_PIPE), State(RD_SK4), Symbol(SYM_PIPE), Dir::Right);
    }
    {
        let sk4 = State(RD_SK4);
        scan_right(r, sk4, &bits());
        r.add(sk4, Symbol(SYM_PIPE), State(RD_READ), Symbol(SYM_PIPE), Dir::Right);
    }
    {
        r.add(State(RD_READ), Symbol(SYM_L), State(MOVE_LEFT), Symbol(SYM_L), Dir::Left);
        r.add(State(RD_READ), Symbol(SYM_D), State(MOVE_RIGHT), Symbol(SYM_D), Dir::Left);
    }
}

/// `acc` followed by the rules that `move_right_rules` adds, in order.
pub open spec fn move_right_rules_from(acc: Seq<ByteRule>) -> Seq<ByteRule> {
    let mr = State(MOVE_RIGHT);
    let syms = (seq![Symbol(SYM_ZERO), Symbol(SYM_ONE)] + seq![Symbol(SYM_PIPE), Symbol(SYM_L), Symbol(SYM_D)]);
    let acc = acc + scan_rules(mr, syms, Dir::Left);
    let acc = acc.push((mr, Symbol(SYM_STAR), State(MR_NAV), Symbol(SYM_DOT), Dir::Right));
    let nav = State(MR_NAV);
    let syms = (seq![Symbol(SYM_ZERO), Symbol(SYM_ONE), Symbol(SYM_X), Symbol(SYM_Y), Symbol(SYM_PIPE), Symbol(SYM_L), Symbol(SYM_D)] + seq![Symbol(SYM_SEMI), Symbol(SYM_DOT)]);
    let acc = acc + scan_rules(nav, syms, Dir::Right);
    let acc = acc.push((nav, Symbol(SYM_HASH), State(MR_S1), Symbol(SYM_HASH), Dir::Right));
    let s1 = State(MR_S1);
    let syms = seq![Symbol(SYM_ZERO), Symbol(SYM_ONE)];
    let syms = syms.push(Symbol(SYM_SEMI));
    let acc = acc + scan_rules(s1, syms, Dir::Right);
    let acc = acc.push((s1, Symbol(SYM_HASH), State(MR_S2), Symbol(SYM_HASH), Dir::Right));
    let s2 = State(MR_S2);
    let acc = acc + scan_rules(s2, seq![Symbol(SYM_ZERO), Symbol(SYM_ONE)], Dir::Right);
    let acc = acc.push((s2, Symbol(SYM_HASH), State(MR_S3), Symbol(SYM_HASH), Dir::Right));
    let s3 = State(MR_S3);
    let acc = acc + scan_rules(s3, seq![Symbol(SYM_ZERO), Symbol(SYM_ONE)], Dir::Right);
    let acc = acc.push((s3, Symbol(SYM_HASH), State(MR_FIND_HEAD), Symbol(SYM_HASH), Dir::Right));
    let fh = State(MR_FIND_HEAD);
    let syms = seq![Symbol(SYM_ZERO), Symbol(SYM_ONE)];
    let syms = syms.push(Symbol(SYM_COMMA));
    let acc = acc + scan_rules(fh, syms, Dir::Right);
    let acc = acc.push((fh, Symbol(SYM_CARET), State(MR_SKIP_CELL), Symbol(SYM_GT), Dir::Right));
    let sc = State(MR_SKIP_CELL);
    let acc = acc + scan_rules(sc, seq![Symbol(SYM_ZERO), Symbol(SYM_ONE)], Dir::Right);
    let acc = acc.push((sc, Symbol(SYM_COMMA), State(MR_PLACE_HEAD), Symbol(SYM_CARET), Dir::Left));
    let acc = acc.push((sc, Symbol(SYM_BLANK), State(MR_EXTEND_INIT), Symbol(SYM_BLANK), Dir::Left));
    let ph = State(MR_PLACE_HEAD);
    let acc = acc + scan_rules(ph, seq![Symbol(SYM_ZERO), Symbol(SYM_ONE)], Dir::Left);
    let acc = acc.push((ph, Symbol(SYM_GT), State(DONE_SEEK_HOME), Symbol(SYM_COMMA), Dir::Left));
    acc
}

/// Move the head marker one cell right.
#[verifier::spinoff_prover]
#[verifier::rlimit(30)]
fn move_right_rules(r: &mut RuleSet)
    requires
        built_before(old(r).rules@, 17),
    ensures
        built_before(final(r).rules@, 18),
        final(r).rules@ == move_right_rules_from(old(r).rules@),
{
    {
        let mr = State(MOVE_RIGHT);
        let syms = with(&bits(), vec![Symbol(SYM_PIPE), Symbol(SYM_L), Symbol(SYM_D)]);
        scan_left(r, mr, &syms);
        r.add(mr, Symbol(SYM_STAR), State(MR_NAV), Symbol(SYM_DOT), Dir::Right);
    }
    {
        let nav = State(MR_NAV);
        let syms = with(&rule_internals(), vec![Symbol(SYM_SEMI), Symbol(SYM_DOT)]);
        scan_right(r, nav, &syms);
        r.add(nav, Symbol(SYM_HASH), State(MR_S1), Symbol(SYM_HASH), Dir::Right);
    }
    {
        let s1 = State(MR_S1);
        let mut syms = bits();
        syms.push(Symbol(SYM_SEMI));
        scan_right(r, s1, &syms);
        r.add(s1, Symbol(SYM_HASH), State(MR_S2), Symbol(SYM_HASH), Dir::Right);
    }
    {
        let s2 = State(MR_S2);
        scan_right(r, s2, &bits());
        r.add(s2, Symbol(SYM_HASH), State(MR_S3), Symbol(SYM_HASH), Dir::Right);
    }
    {
        let s3 = State(MR_S3);
        scan_right(r, s3, &bits());
        r.add(s3, Symbol(SYM_HASH), State(MR_FIND_HEAD), Symbol(SYM_HASH), Dir::Right);
    }
    {
        let fh = State(MR_FIND_HEAD);
        let mut syms = bits();
        syms.push(Symbol(SYM_COMMA));
        scan_right(r, fh, &syms);
        r.add(fh, Symbol(SYM_CARET), State(MR_SKIP_CELL), Symbol(SYM_GT), Dir::Right);
    }
    {
        let sc = State(MR_SKIP_CELL);
        scan_right(r, sc, &bits());
        r.add(sc, Symbol(SYM_COMMA), State(MR_PLACE_HEAD), Symbol(SYM_CARET), Dir::Left);
        r.add(sc, Symbol(SYM_BLANK), State(MR_EXTEND_INIT), Symbol(SYM_BLANK), Dir::Left);
    }
    {
        let ph = State(MR_PLACE_HEAD);
        scan_left(r, ph, &bits());
        r.add(ph, Symbol(SYM_GT), State(DONE_SEEK_HOME), Symbol(SYM_COMMA), Dir::Left);
    }
}

/// `acc` followed by the rules that `extend_tape_rules` adds, in order.
pub open spec fn extend_tape_rules_from(acc: Seq<ByteRule>) -> Seq<ByteRule> {
    let ei = State(MR_EXTEND_INIT);
    let acc = acc + scan_rules(ei, seq![Symbol(SYM_ZERO), Symbol(SYM_ONE)], Dir::Left);
    let acc = acc.push((ei, Symbol(SYM_GT), State(MR_EXT_TO_BLANK), Symbol(SYM_COMMA), Dir::Right));
    let tb = State(MR_EXT_TO_BLANK);
    let acc = acc + scan_rules(tb, seq![Symbol(SYM_ZERO), Symbol(SYM_ONE)], Dir::Right);
    let acc = acc.push((tb, Symbol(SYM_BLANK), State(MR_EXT_WRITE_HEAD), Symbol(SYM_CARET), Dir::Left));
    let acc = acc + seek_home_rules(State(MR_EXT_WRITE_HEAD), State(MR_EXT_HOME));
    let eh = State(MR_EXT_HOME);
    let acc = acc.push((eh, Symbol(SYM_HASH), State(MR_EXT_H1), Symbol(SYM_HASH), Dir::Right));
    let h1 = State(MR_EXT_H1);
    let syms = (seq![Symbol(SYM_ZERO), Symbol(SYM_ONE), Symbol(SYM_X), Symbol(SYM_Y), Symbol(SYM_PIPE), Symbol(SYM_L), Symbol(SYM_D)] + seq![Symbol(SYM_SEMI), Symbol(SYM_DOT)]);
    let acc = acc + scan_rules(h1, syms, Dir::Right);
    let acc = acc.push((h1, Symbol(SYM_HASH), State(MR_EXT_H2), Symbol(SYM_HASH), Dir::Right));
    let h2 = State(MR_EXT_H2);
    let syms = seq![Symbol(SYM_ZERO), Symbol(SYM_ONE)];
    let syms = syms.push(Symbol(SYM_SEMI));
    let acc = acc + scan_rules(h2, syms, Dir::Right);
    let acc = acc.push((h2, Symbol(SYM_HASH), State(MR_EXT_H3), Symbol(SYM_HASH), Dir::Right));
    let h3 = State(MR_EXT_H3);
    let acc = acc + scan_rules(h3, seq![Symbol(SYM_ZERO), Symbol(SYM_ONE)], Dir::Right);
    let acc = acc.push((h3, Symbol(SYM_HASH), State(MR_EXT_READ_BLANK), Symbol(SYM_HASH), Dir::Right));
    acc
}

/// Past the last cell: append a cell and put the head on it.
#[verifier::spinoff_prover]
#[verifier::rlimit(30)]
fn extend_tape_rules(r: &mut RuleSet)
    requires
        built_before(old(r).rules@, 18),
    ensures
        built_before(final(r).rules@, 19),
        final(r).rules@ == extend_tape_rules_from(old(r).rules@),
{
    {
        let ei = State(MR_EXTEND_INIT);
        scan_left(r, ei, &bits());
        r.add(ei, Symbol(SYM_GT), State(MR_EXT_TO_BLANK), Symbol(SYM_COMMA), Dir::Right);
    }
    {
        let tb = State(MR_EXT_TO_BLANK);
        scan_right(r, tb, &bits());
        r.add(tb, Symbol(SYM_BLANK), State(MR_EXT_WRITE_HEAD), Symbol(SYM_CARET), Dir::Left);
    }
    {
        seek_home(r, State(MR_EXT_WRITE_HEAD), State(MR_EXT_HOME));
    }
    {
        let eh = State(MR_EXT_HOME);
        r.add(eh, Symbol(SYM_HASH), State(MR_EXT_H1), Symbol(SYM_HASH), Dir::Right);
    }
    {
        let h1 = State(MR_EXT_H1);
        let syms = with(&rule_internals(), vec![Symbol(SYM_SEMI), Symbol(SYM_DOT)]);
        scan_right(r, h1, &syms);
        r.add(h1, Symbol(SYM_HASH), State(MR_EXT_H2), Symbol(SYM_HASH), Dir::Right);
    }
    {
        let h2 = State(MR_EXT_H2);
        let mut syms = bits();
        syms.push(Symbol(SYM_SEMI));
        scan_right(r, h2, &syms);
        r.add(h2, Symbol(SYM_HASH), State(MR_EXT_H3), Symbol(SYM_HASH), Dir::Right);
    }
    {
        let h3 = State(MR_EXT_H3);
        scan_right(r, h3, &bits());
        r.add(h3, Symbol(SYM_HASH), State(MR_EXT_READ_BLANK), Symbol(SYM_HASH), Dir::Right);
    }
}

/// `acc` followed by the rules that `extend_tape_blank_rules` adds, in order.
pub open spec fn extend_tape_blank_rules_from(acc: Seq<ByteRule>) -> Seq<ByteRule> {
    let rb = State(MR_EXT_READ_BLANK);
    let acc = acc.push((rb, Symbol(SYM_ZERO), State(MR_EXT_BC0), Symbol(SYM_X), Dir::Right));
    let acc = acc.push((rb, Symbol(SYM_ONE), State(MR_EXT_BC1), Symbol(SYM_Y), Dir::Right));
    let acc = acc.push((rb, Symbol(SYM_HASH), State(MR_EXT_REST_BLANK), Symbol(SYM_HASH), Dir::Left));
    let acc = carry_blank_bit_from(acc, 0);
    let acc = carry_blank_bit_from(acc, 1);
    let ret = State(MR_EXT_BC_RET);
    let syms = (seq![Symbol(SYM_ZERO), Symbol(SYM_ONE)] + seq![Symbol(SYM_HASH), Symbol(SYM_COMMA), Symbol(SYM_CARET)]);
    let acc = acc + scan_rules(ret, syms, Dir::Left);
    let acc = acc.push((ret, Symbol(SYM_X), State(MR_EXT_BC_NEXT), Symbol(SYM_X), Dir::Right));
    let acc = acc.push((ret, Symbol(SYM_Y), State(MR_EXT_BC_NEXT), Symbol(SYM_Y), Dir::Right));
    let next = State(MR_EXT_BC_NEXT);
    let acc = acc + scan_rules(next, seq![Symbol(SYM_X), Symbol(SYM_Y)], Dir::Right);
    let acc = acc.push((next, Symbol(SYM_ZERO), State(MR_EXT_BC0), Symbol(SYM_X), Dir::Right));
    let acc = acc.push((next, Symbol(SYM_ONE), State(MR_EXT_BC1), Symbol(SYM_Y), Dir::Right));
    let acc = acc.push((next, Symbol(SYM_HASH), State(MR_EXT_REST_BLANK), Symbol(SYM_HASH), Dir::Left));
    let rb = State(MR_EXT_REST_BLANK);
    let acc = acc.push((rb, Symbol(SYM_X), rb, Symbol(SYM_ZERO), Dir::Left));
    let acc = acc.push((rb, Symbol(SYM_Y), rb, Symbol(SYM_ONE), Dir::Left));
    let acc = acc + scan_rules(rb, seq![Symbol(SYM_ZERO), Symbol(SYM_ONE)], Dir::Left);
    let acc = acc.push((rb, Symbol(SYM_HASH), State(DONE_SEEK_HOME), Symbol(SYM_HASH), Dir::Left));
    acc
}

/// Fill the new cell with the blank's code, bit by bit, then restore it.
#[verifier::spinoff_prover]
#[verifier::rlimit(30)]
fn extend_tape_blank_rules(r: &mut RuleSet)
    requires
        built_before(old(r).rules@, 19),
    ensures
        built_before(final(r).rules@, 20),
        final(r).rules@ == extend_tape_blank_rules_from(old(r).rules@),
{
    {
        let rb = State(MR_EXT_READ_BLANK);
        r.add(rb, Symbol(SYM_ZERO), State(MR_EXT_BC0), Symbol(SYM_X), Dir::Right);
        r.add(rb, Symbol(SYM_ONE), State(MR_EXT_BC1), Symbol(SYM_Y), Dir::Right);
        r.add(rb, Symbol(SYM_HASH), State(MR_EXT_REST_BLANK), Symbol(SYM_HASH), Dir::Left);
    }
    carry_blank_bit(r, 0);
    carry_blank_bit(r, 1);
    {
        let ret = State(MR_EXT_BC_RET);
        let syms = with(&bits(), vec![Symbol(SYM_HASH), Symbol(SYM_COMMA), Symbol(SYM_CARET)]);
        scan_left(r, ret, &syms);
        r.add(ret, Symbol(SYM_X), State(MR_EXT_BC_NEXT), Symbol(SYM_X), Dir::Right);
        r.add(ret, Symbol(SYM_Y), State(MR_EXT_BC_NEXT), Symbol(SYM_Y), Dir::Right);
    }
    {
        let next = State(MR_EXT_BC_NEXT);
        scan_right(r, next, &marked_bits());
        r.add(next, Symbol(SYM_ZERO), State(MR_EXT_BC0), Symbol(SYM_X), Dir::Right);
        r.add(next, Symbol(SYM_ONE), State(MR_EXT_BC1), Symbol(SYM_Y), Dir::Right);
        r.add(next, Symbol(SYM_HASH), State(MR_EXT_REST_BLANK), Symbol(SYM_HASH), Dir::Left);
    }
    {
        let rb = State(MR_EXT_REST_BLANK);
        r.add(rb, Symbol(SYM_X), rb, Symbol(SYM_ZERO), Dir::Left);
        r.add(rb, Symbol(SYM_Y), rb, Symbol(SYM_ONE), Dir::Left);
        scan_left(r, rb, &bits());
        r.add(rb, Symbol(SYM_HASH), State(DONE_SEEK_HOME), Symbol(SYM_HASH), Dir::Left);
    }
}

/// `acc` followed by the rules that `move_left_rules` adds, in order.
pub open spec fn move_left_rules_from(acc: Seq<ByteRule>) -> Seq<ByteRule> {
    let ml = State(MOVE_LEFT);
    let syms = (seq![Symbol(SYM_ZERO), Symbol(SYM_ONE)] + seq![Symbol(SYM_PIPE), Symbol(SYM_L), Symbol(SYM_D)]);
    let acc = acc + scan_rules(ml, syms, Dir::Left);
    let acc = acc.push((ml, Symbol(SYM_STAR), State(ML_NAV), Symbol(SYM_DOT), Dir::Right));
    let nav = State(ML_NAV);
    let syms = (seq![Symbol(SYM_ZERO), Symbol(SYM_ONE), Symbol(SYM_X), Symbol(SYM_Y), Symbol(SYM_PIPE), Symbol(SYM_L), Symbol(SYM_D)] + seq![Symbol(SYM_SEMI), Symbol(SYM_DOT)]);
    let acc = acc + scan_rules(nav, syms, Dir::Right);
    let acc = acc.push((nav, Symbol(SYM_HASH), State(ML_S1), Symbol(SYM_HASH), Dir::Right));
    let s1 = State(ML_S1);
    let syms = seq![Symbol(SYM_ZERO), Symbol(SYM_ONE)];
    let syms = syms.push(Symbol(SYM_SEMI));
    let acc = acc + scan_rules(s1, syms, Dir::Right);
    let acc = acc.push((s1, Symbol(SYM_HASH), State(ML_S2), Symbol(SYM_HASH), Dir::Right));
    let s2 = State(ML_S2);
    let acc = acc + scan_rules(s2, seq![Symbol(SYM_ZERO), Symbol(SYM_ONE)], Dir::Right);
    let acc = acc.push((s2, Symbol(SYM_HASH), State(ML_S3), Symbol(SYM_HASH), Dir::Right));
    let s3 = State(ML_S3);
    let acc = acc + scan_rules(s3, seq![Symbol(SYM_ZERO), Symbol(SYM_ONE)], Dir::Right);
    let acc = acc.push((s3, Symbol(SYM_HASH), State(ML_FIND_HEAD), Symbol(SYM_HASH), Dir::Right));
    let fh = State(ML_FIND_HEAD);
    let syms = seq![Symbol(SYM_ZERO), Symbol(SYM_ONE)];
    let syms = syms.push(Symbol(SYM_COMMA));
    let acc = acc + scan_rules(fh, syms, Dir::Right);
    let acc = acc.push((fh, Symbol(SYM_CARET), State(ML_MARK), Symbol(SYM_GT), Dir::Left));
    let mk = State(ML_MARK);
    let acc = acc + scan_rules(mk, seq![Symbol(SYM_ZERO), Symbol(SYM_ONE)], Dir::Left);
    let acc = acc.push((mk, Symbol(SYM_COMMA), State(ML_RESTORE), Symbol(SYM_CARET), Dir::Right));
    let rs = State(ML_RESTORE);
    let acc = acc + scan_rules(rs, seq![Symbol(SYM_ZERO), Symbol(SYM_ONE)], Dir::Right);
    let acc = acc.push((rs, Symbol(SYM_GT), State(DONE_SEEK_HOME), Symbol(SYM_COMMA), Dir::Left));
    acc
}

/// Move the head marker one cell left.
#[verifier::spinoff_prover]
#[verifier::rlimit(30)]
fn move_left_rules(r: &mut RuleSet)
    requires
        built_before(old(r).rules@, 20),
    ensures
        built_before(final(r).rules@, 21),
        final(r).rules@ == move_left_rules_from(old(r).rules@),
{
    {
        let ml = State(MOVE_LEFT);
        let syms = with(&bits(), vec![Symbol(SYM_PIPE), Symbol(SYM_L), Symbol(SYM_D)]);
        scan_left(r, ml, &syms);
        r.add(ml, Symbol(SYM_STAR), State(ML_NAV), Symbol(SYM_DOT), Dir::Right);
    }
    {
        let nav = State(ML_NAV);
        let syms = with(&rule_internals(), vec![Symbol(SYM_SEMI), Symbol(SYM_DOT)]);
        scan_right(r, nav, &syms);
        r.add(nav, Symbol(SYM_HASH), State(ML_S1), Symbol(SYM_HASH), Dir::Right);
    }
    {
        let s1 = State(ML_S1);
        let mut syms = bits();
        syms.push(Symbol(SYM_SEMI));
        scan_right(r, s1, &syms);
        r.add(s1, Symbol(SYM_HASH), State(ML_S2), Symbol(SYM_HASH), Dir::Right);
    }
    {
        let s2 = State(ML_S2);
        scan_right(r, s2, &bits());
        r.add(s2, Symbol(SYM_HASH), State(ML_S3), Symbol(SYM_HASH), Dir::Right);
    }
    {
        let s3 = State(ML_S3);
        scan_right(r, s3, &bits());
        r.add(s3, Symbol(SYM_HASH), State(ML_FIND_HEAD), Symbol(SYM_HASH), Dir::Right);
    }
    {
        let fh = State(ML_FIND_HEAD);
        let mut syms = bits();
        syms.push(Symbol(SYM_COMMA));
        scan_right(r, fh, &syms);
        r.add(fh, Symbol(SYM_CARET), State(ML_MARK), Symbol(SYM_GT), Dir::Left);
    }
    {
        let mk = State(ML_MARK);
        scan_left(r, mk, &bits());
        r.add(mk, Symbol(SYM_COMMA), State(ML_RESTORE), Symbol(SYM_CARET), Dir::Right);
    }
    {
        let rs = State(ML_RESTORE);
        scan_right(r, rs, &bits());
        r.add(rs, Symbol(SYM_GT), State(DONE_SEEK_HOME), Symbol(SYM_COMMA), Dir::Left);
    }
}

/// `acc` followed by the rules that `restart_rules` adds, in order.
pub open spec fn restart_rules_from(acc: Seq<ByteRule>) -> Seq<ByteRule> {
    let acc = acc + seek_home_rules(State(DONE_SEEK_HOME), State(INIT));
    acc
}

/// PHASE 7: seek `$` and start the next step.
#[verifier::spinoff_prover]
#[verifier::rlimit(30)]
fn restart_rules(r: &mut RuleSet)
    requires
        built_before(old(r).rules@, 21),
    ensures
        built_before(final(r).rules@, 22),
        final(r).rules@ == restart_rules_from(old(r).rules@),
{
    seek_home(r, State(DONE_SEEK_HOME), State(INIT));
}

/// `acc` followed by the rules that `check_accept_rules` adds, in order.
pub open spec fn check_accept_rules_from(acc: Seq<ByteRule>) -> Seq<ByteRule> {
    let ci = State(CHK_ACC_INIT);
    let acc = acc.push((ci, Symbol(SYM_HASH), State(REJ_FINAL_HOME), Symbol(SYM_HASH), Dir::Left));
    let acc = acc.push((ci, Symbol(SYM_ZERO), State(CHK_ACC_C0), Symbol(SYM_X), Dir::Right));
    let acc = acc.push((ci, Symbol(SYM_ONE), State(CHK_ACC_C1), Symbol(SYM_Y), Dir::Right));
    let acc = check_accept_bit_from(acc, 0);
    let acc = check_accept_bit_from(acc, 1);
    acc
}

/// PHASE 8: no rule applies; compare the state with each accepting state.
#[verifier::spinoff_prover]
#[verifier::rlimit(30)]
fn check_accept_rules(r: &mut RuleSet)
    requires
        built_before(old(r).rules@, 22),
    ensures
        built_before(final(r).rules@, 23),
        final(r).rules@ == check_accept_rules_from(old(r).rules@),
{
    {
        let ci = State(CHK_ACC_INIT);
        r.add(ci, Symbol(SYM_HASH), State(REJ_FINAL_HOME), Symbol(SYM_HASH), Dir::Left);
        r.add(ci, Symbol(SYM_ZERO), State(CHK_ACC_C0), Symbol(SYM_X), Dir::Right);
        r.add(ci, Symbol(SYM_ONE), State(CHK_ACC_C1), Symbol(SYM_Y), Dir::Right);
    }
    check_accept_bit(r, 0);
    check_accept_bit(r, 1);
}

/// `acc` followed by the rules that `accept_bit_matched_rules` adds, in order.
pub open spec fn accept_bit_matched_rules_from(acc: Seq<ByteRule>) -> Seq<ByteRule> {
    let ok = State(CHK_ACC_OK);
    let acc = acc + scan_rules(ok, seq![Symbol(SYM_ZERO), Symbol(SYM_ONE), Symbol(SYM_X), Symbol(SYM_Y)], Dir::Left);
    let acc = acc.push((ok, Symbol(SYM_HASH), State(CHK_ACC_OK_ACC), Symbol(SYM_HASH), Dir::Left));
    let oa = State(CHK_ACC_OK_ACC);
    let syms = seq![Symbol(SYM_ZERO), Symbol(SYM_ONE), Symbol(SYM_X), Symbol(SYM_Y)];
    let syms = syms.push(Symbol(SYM_SEMI));
    let acc = acc + scan_rules(oa, syms, Dir::Left);
    let acc = acc.push((oa, Symbol(SYM_HASH), State(CHK_ACC_OK_FIND), Symbol(SYM_HASH), Dir::Right));
    let of_ = State(CHK_ACC_OK_FIND);
    let syms = seq![Symbol(SYM_ZERO), Symbol(SYM_ONE)];
    let syms = syms.push(Symbol(SYM_SEMI));
    let acc = acc + scan_rules(of_, syms, Dir::Right);
    let acc = acc.push((of_, Symbol(SYM_X), State(CHK_ACC_OK_SKIP), Symbol(SYM_X), Dir::Right));
    let acc = acc.push((of_, Symbol(SYM_Y), State(CHK_ACC_OK_SKIP), Symbol(SYM_Y), Dir::Right));
    let acc = acc.push((of_, Symbol(SYM_HASH), State(ACCEPT_SEEK_HOME), Symbol(SYM_HASH), Dir::Left));
    let skip = State(CHK_ACC_OK_SKIP);
    let acc = acc + scan_rules(skip, seq![Symbol(SYM_X), Symbol(SYM_Y)], Dir::Right);
    let acc = acc.push((skip, Symbol(SYM_ZERO), State(CHK_ACC_C0), Symbol(SYM_X), Dir::Right));
    let acc = acc.push((skip, Symbol(SYM_ONE), State(CHK_ACC_C1), Symbol(SYM_Y), Dir::Right));
    let acc = acc.push((skip, Symbol(SYM_SEMI), State(ACCEPT_SEEK_HOME), Symbol(SYM_SEMI), Dir::Left));
    let acc = acc.push((skip, Symbol(SYM_HASH), State(ACCEPT_SEEK_HOME), Symbol(SYM_HASH), Dir::Left));
    acc
}

/// An accepting-state bit matched: go back for the next bit.
#[verifier::spinoff_prover]
#[verifier::rlimit(30)]
fn accept_bit_matched_rules(r: &mut RuleSet)
    requires
        built_before(old(r).rules@, 23),
    ensures
        built_before(final(r).rules@, 24),
        final(r).rules@ == accept_bit_matched_rules_from(old(r).rules@),
{
    {
        let ok = State(CHK_ACC_OK);
        scan_left(r, ok, &bits_and_marked());
        r.add(ok, Symbol(SYM_HASH), State(CHK_ACC_OK_ACC), Symbol(SYM_HASH), Dir::Left);
    }
    {
        let oa = State(CHK_ACC_OK_ACC);
        let mut syms = bits_and_marked();
        syms.push(Symbol(SYM_SEMI));
        scan_left(r, oa, &syms);
        r.add(oa, Symbol(SYM_HASH), State(CHK_ACC_OK_FIND), Symbol(SYM_HASH), Dir::Right);
    }
    {
        let of_ = State(CHK_ACC_OK_FIND);
        let mut syms = bits();
        syms.push(Symbol(SYM_SEMI));
        scan_right(r, of_, &syms);
        r.add(of_, Symbol(SYM_X), State(CHK_ACC_OK_SKIP), Symbol(SYM_X), Dir::Right);
        r.add(of_, Symbol(SYM_Y), State(CHK_ACC_OK_SKIP), Symbol(SYM_Y), Dir::Right);
        r.add(of_, Symbol(SYM_HASH), State(ACCEPT_SEEK_HOME), Symbol(SYM_HASH), Dir::Left);
    }
    {
        let skip = State(CHK_ACC_OK_SKIP);
        scan_right(r, skip, &marked_bits());
        r.add(skip, Symbol(SYM_ZERO), State(CHK_ACC_C0), Symbol(SYM_X), Dir::Right);
        r.add(skip, Symbol(SYM_ONE), State(CHK_ACC_C1), Symbol(SYM_Y), Dir::Right);
        r.add(skip, Symbol(SYM_SEMI), State(ACCEPT_SEEK_HOME), Symbol(SYM_SEMI), Dir::Left);
        r.add(skip, Symbol(SYM_HASH), State(ACCEPT_SEEK_HOME), Symbol(SYM_HASH), Dir::Left);
    }
}

/// `acc` followed by the rules that `accept_bit_mismatch_rules` adds, in order.
pub open spec fn accept_bit_mismatch_rules_from(acc: Seq<ByteRule>) -> Seq<ByteRule> {
    let fb = State(CHK_ACC_FAIL_BIT);
    let acc = acc + scan_rules(fb, seq![Symbol(SYM_ZERO), Symbol(SYM_ONE), Symbol(SYM_X), Symbol(SYM_Y)], Dir::Left);
    let acc = acc.push((fb, Symbol(SYM_HASH), State(CHK_ACC_REST_STATE), Symbol(SYM_HASH), Dir::Right));
    let rs = State(CHK_ACC_REST_STATE);
    let acc = acc.push((rs, Symbol(SYM_X), rs, Symbol(SYM_ZERO), Dir::Right));
    let acc = acc.push((rs, Symbol(SYM_Y), rs, Symbol(SYM_ONE), Dir::Right));
    let acc = acc + scan_rules(rs, seq![Symbol(SYM_ZERO), Symbol(SYM_ONE)], Dir::Right);
    let acc = acc.push((rs, Symbol(SYM_HASH), State(CHK_ACC_BACK2ACC), Symbol(SYM_HASH), Dir::Left));
    let ba = State(CHK_ACC_BACK2ACC);
    let acc = acc + scan_rules(ba, seq![Symbol(SYM_ZERO), Symbol(SYM_ONE)], Dir::Left);
    let acc = acc.push((ba, Symbol(SYM_HASH), State(CHK_ACC_INTO_ACC), Symbol(SYM_HASH), Dir::Left));
    let ia = State(CHK_ACC_INTO_ACC);
    let syms = seq![Symbol(SYM_ZERO), Symbol(SYM_ONE), Symbol(SYM_X), Symbol(SYM_Y)];
    let syms = syms.push(Symbol(SYM_SEMI));
    let acc = acc + scan_rules(ia, syms, Dir::Left);
    let acc = acc.push((ia, Symbol(SYM_HASH), State(CHK_ACC_DO_REST), Symbol(SYM_HASH), Dir::Right));
    acc
}

/// An accepting-state bit differs: restore the state's marks.
#[verifier::spinoff_prover]
#[verifier::rlimit(30)]
fn accept_bit_mismatch_rules(r: &mut RuleSet)
    requires
        built_before(old(r).rules@, 24),
    ensures
        built_before(final(r).rules@, 25),
        final(r).rules@ == accept_bit_mismatch_rules_from(old(r).rules@),
{
    {
        let fb = State(CHK_ACC_FAIL_BIT);
        scan_left(r, fb, &bits_and_marked());
        r.add(fb, Symbol(SYM_HASH), State(CHK_ACC_REST_STATE), Symbol(SYM_HASH), Dir::Right);
    }
    {
        let rs = State(CHK_ACC_REST_STATE);
        r.add(rs, Symbol(SYM_X), rs, Symbol(SYM_ZERO), Dir::Right);
        r.add(rs, Symbol(SYM_Y), rs, Symbol(SYM_ONE), Dir::Right);
        scan_right(r, rs, &bits());
        r.add(rs, Symbol(SYM_HASH), State(CHK_ACC_BACK2ACC), Symbol(SYM_HASH), Dir::Left);
    }
    {
        let ba = State(CHK_ACC_BACK2ACC);
        scan_left(r, ba, &bits());
        r.add(ba, Symbol(SYM_HASH), State(CHK_ACC_INTO_ACC), Symbol(SYM_HASH), Dir::Left);
    }
    {
        let ia = State(CHK_ACC_INTO_ACC);
        let mut syms = bits_and_marked();
        syms.push(Symbol(SYM_SEMI));
        scan_left(r, ia, &syms);
        r.add(ia, Symbol(SYM_HASH), State(CHK_ACC_DO_REST), Symbol(SYM_HASH), Dir::Right);
    }
}

/// `acc` followed by the rules that `accept_next_entry_rules` adds, in order.
pub open spec fn accept_next_entry_rules_from(acc: Seq<ByteRule>) -> Seq<ByteRule> {
    let dr = State(CHK_ACC_DO_REST);
    let acc = acc + scan_rules(dr, seq![Symbol(SYM_ZERO), Symbol(SYM_ONE)], Dir::Right);
    let acc = acc.push((dr, Symbol(SYM_X), State(CHK_ACC_DO_REST2), Symbol(SYM_ZERO), Dir::Right));
    let acc = acc.push((dr, Symbol(SYM_Y), State(CHK_ACC_DO_REST2), Symbol(SYM_ONE), Dir::Right));
    let acc = acc.push((dr, Symbol(SYM_SEMI), State(CHK_ACC_NEXT_ENTRY), Symbol(SYM_SEMI), Dir::Right));
    let acc = acc.push((dr, Symbol(SYM_HASH), State(REJECT_SEEK_HOME), Symbol(SYM_HASH), Dir::Left));
    let dr2 = State(CHK_ACC_DO_REST2);
    let acc = acc.push((dr2, Symbol(SYM_X), dr2, Symbol(SYM_ZERO), Dir::Right));
    let acc = acc.push((dr2, Symbol(SYM_Y), dr2, Symbol(SYM_ONE), Dir::Right));
    let acc = acc + scan_rules(dr2, seq![Symbol(SYM_ZERO), Symbol(SYM_ONE)], Dir::Right);
    let acc = acc.push((dr2, Symbol(SYM_SEMI), State(CHK_ACC_NEXT_ENTRY), Symbol(SYM_SEMI), Dir::Right));
    let acc = acc.push((dr2, Symbol(SYM_HASH), State(REJECT_SEEK_HOME), Symbol(SYM_HASH), Dir::Left));
    let ne = State(CHK_ACC_NEXT_ENTRY);
    let acc = acc.push((ne, Symbol(SYM_ZERO), State(CHK_ACC_C0), Symbol(SYM_X), Dir::Right));
    let acc = acc.push((ne, Symbol(SYM_ONE), State(CHK_ACC_C1), Symbol(SYM_Y), Dir::Right));
    let acc = acc.push((ne, Symbol(SYM_HASH), State(REJECT_SEEK_HOME), Symbol(SYM_HASH), Dir::Left));
    acc
}

/// Restore the entry's marks and try the next accepting state.
#[verifier::spinoff_prover]
#[verifier::rlimit(30)]
fn accept_next_entry_rules(r: &mut RuleSet)
    requires
        built_before(old(r).rules@, 25),
    ensures
        built_before(final(r).rules@, 26),
        final(r).rules@ == accept_next_entry_rules_from(old(r).rules@),
{
    {
        let dr = State(CHK_ACC_DO_REST);
        scan_right(r, dr, &bits());
        r.add(dr, Symbol(SYM_X), State(CHK_ACC_DO_REST2), Symbol(SYM_ZERO), Dir::Right);
        r.add(dr, Symbol(SYM_Y), State(CHK_ACC_DO_REST2), Symbol(SYM_ONE), Dir::Right);
        r.add(dr, Symbol(SYM_SEMI), State(CHK_ACC_NEXT_ENTRY), Symbol(SYM_SEMI), Dir::Right);
        r.add(dr, Symbol(SYM_HASH), State(REJECT_SEEK_HOME), Symbol(SYM_HASH), Dir::Left);
    }
    {
        let dr2 = State(CHK_ACC_DO_REST2);
        r.add(dr2, Symbol(SYM_X), dr2, Symbol(SYM_ZERO), Dir::Right);
        r.add(dr2, Symbol(SYM_Y), dr2, Symbol(SYM_ONE), Dir::Right);
        scan_right(r, dr2, &bits());
        r.add(dr2, Symbol(SYM_SEMI), State(CHK_ACC_NEXT_ENTRY), Symbol(SYM_SEMI), Dir::Right);
        r.add(dr2, Symbol(SYM_HASH), State(REJECT_SEEK_HOME), Symbol(SYM_HASH), Dir::Left);
    }
    {
        let ne = State(CHK_ACC_NEXT_ENTRY);
        r.add(ne, Symbol(SYM_ZERO), State(CHK_ACC_C0), Symbol(SYM_X), Dir::Right);
        r.add(ne, Symbol(SYM_ONE), State(CHK_ACC_C1), Symbol(SYM_Y), Dir::Right);
        r.add(ne, Symbol(SYM_HASH), State(REJECT_SEEK_HOME), Symbol(SYM_HASH), Dir::Left);
    }
}

/// `acc` followed by the rules that `accept_rules` adds, in order.
pub open spec fn accept_rules_from(acc: Seq<ByteRule>) -> Seq<ByteRule> {
    let ash = State(ACCEPT_SEEK_HOME);
    let syms = seq![Symbol(SYM_ZERO), Symbol(SYM_ONE), Symbol(SYM_X), Symbol(SYM_Y)];
    let syms = syms.push(Symbol(SYM_SEMI));
    let acc = acc + scan_rules(ash, syms, Dir::Left);
    let acc = acc.push((ash, Symbol(SYM_HASH), State(ACC_REST_ACC), Symbol(SYM_HASH), Dir::Right));
    let ra = State(ACC_REST_ACC);
    let acc = acc.push((ra, Symbol(SYM_X), ra, Symbol(SYM_ZERO), Dir::Right));
    let acc = acc.push((ra, Symbol(SYM_Y), ra, Symbol(SYM_ONE), Dir::Right));
    let syms = seq![Symbol(SYM_ZERO), Symbol(SYM_ONE)];
    let syms = syms.push(Symbol(SYM_SEMI));
    let acc = acc + scan_rules(ra, syms, Dir::Right);
    let acc = acc.push((ra, Symbol(SYM_HASH), State(ACC_REST_STATE), Symbol(SYM_HASH), Dir::Right));
    let rs = State(ACC_REST_STATE);
    let acc = acc.push((rs, Symbol(SYM_X), rs, Symbol(SYM_ZERO), Dir::Right));
    let acc = acc.push((rs, Symbol(SYM_Y), rs, Symbol(SYM_ONE), Dir::Right));
    let acc = acc + scan_rules(rs, seq![Symbol(SYM_ZERO), Symbol(SYM_ONE)], Dir::Right);
    let acc = acc.push((rs, Symbol(SYM_HASH), State(ACC_FINAL_HOME), Symbol(SYM_HASH), Dir::Left));
    let acc = acc + seek_home_rules(State(ACC_FINAL_HOME), State(ACCEPT));
    acc
}

/// Accept: restore the accepting states and the state, then seek home.
#[verifier::spinoff_prover]
#[verifier::rlimit(30)]
fn accept_rules(r: &mut RuleSet)
    requires
        built_before(old(r).rules@, 26),
    ensures
        built_before(final(r).rules@, 27),
        final(r).rules@ == accept_rules_from(old(r).rules@),
{
    {
        let ash = State(ACCEPT_SEEK_HOME);
        let mut syms = bits_and_marked();
        syms.push(Symbol(SYM_SEMI));
        scan_left(r, ash, &syms);
        r.add(ash, Symbol(SYM_HASH), State(ACC_REST_ACC), Symbol(SYM_HASH), Dir::Right);
    }
    {
        let ra = State(ACC_REST_ACC);
        r.add(ra, Symbol(SYM_X), ra, Symbol(SYM_ZERO), Dir::Right);
        r.add(ra, Symbol(SYM_Y), ra, Symbol(SYM_ONE), Dir::Right);
        let mut syms = bits();
        syms.push(Symbol(SYM_SEMI));
        scan_right(r, ra, &syms);
        r.add(ra, Symbol(SYM_HASH), State(ACC_REST_STATE), Symbol(SYM_HASH), Dir::Right);
    }
    {
        let rs = State(ACC_REST_STATE);
        r.add(rs, Symbol(SYM_X), rs, Symbol(SYM_ZERO), Dir::Right);
        r.add(rs, Symbol(SYM_Y), rs, Symbol(SYM_ONE), Dir::Right);
        scan_right(r, rs, &bits());
        r.add(rs, Symbol(SYM_HASH), State(ACC_FINAL_HOME), Symbol(SYM_HASH), Dir::Left);
    }
    seek_home(r, State(ACC_FINAL_HOME), State(ACCEPT));
}

/// `acc` followed by the rules that `reject_rules` adds, in order.
pub open spec fn reject_rules_from(acc: Seq<ByteRule>) -> Seq<ByteRule> {
    let rsh = State(REJECT_SEEK_HOME);
    let syms = seq![Symbol(SYM_ZERO), Symbol(SYM_ONE), Symbol(SYM_X), Symbol(SYM_Y)];
    let syms = syms.push(Symbol(SYM_SEMI));
    let acc = acc + scan_rules(rsh, syms, Dir::Left);
    let acc = acc.push((rsh, Symbol(SYM_HASH), State(REJ_REST_ACC), Symbol(SYM_HASH), Dir::Right));
    let ra = State(REJ_REST_ACC);
    let acc = acc.push((ra, Symbol(SYM_X), ra, Symbol(SYM_ZERO), Dir::Right));
    let acc = acc.push((ra, Symbol(SYM_Y), ra, Symbol(SYM_ONE), Dir::Right));
    let syms = seq![Symbol(SYM_ZERO), Symbol(SYM_ONE)];
    let syms = syms.push(Symbol(SYM_SEMI));
    let acc = acc + scan_rules(ra, syms, Dir::Right);
    let acc = acc.push((ra, Symbol(SYM_HASH), State(REJ_REST_STATE), Symbol(SYM_HASH), Dir::Right));
    let rs = State(REJ_REST_STATE);
    let acc = acc.push((rs, Symbol(SYM_X), rs, Symbol(SYM_ZERO), Dir::Right));
    let acc = acc.push((rs, Symbol(SYM_Y), rs, Symbol(SYM_ONE), Dir::Right));
    let acc = acc + scan_rules(rs, seq![Symbol(SYM_ZERO), Symbol(SYM_ONE)], Dir::Right);
    let acc = acc.push((rs, Symbol(SYM_HASH), State(REJ_FINAL_HOME), Symbol(SYM_HASH), Dir::Left));
    let acc = acc + seek_home_rules(State(REJ_FINAL_HOME), State(REJECT));
    acc
}

/// Reject: restore the marks, then seek home.
#[verifier::spinoff_prover]
#[verifier::rlimit(30)]
fn reject_rules(r: &mut RuleSet)
    requires
        built_before(old(r).rules@, 27),
    ensures
        built_before(final(r).rules@, 28),
        final(r).rules@ == reject_rules_from(old(r).rules@),
{
    {
        let rsh = State(REJECT_SEEK_HOME);
        let mut syms = bits_and_marked();
        syms.push(Symbol(SYM_SEMI));
        scan_left(r, rsh, &syms);
        r.add(rsh, Symbol(SYM_HASH), State(REJ_REST_ACC), Symbol(SYM_HASH), Dir::Right);
    }
    {
        let ra = State(REJ_REST_ACC);
        r.add(ra, Symbol(SYM_X), ra, Symbol(SYM_ZERO), Dir::Right);
        r.add(ra, Symbol(SYM_Y), ra, Symbol(SYM_ONE), Dir::Right);
        let mut syms = bits();
        syms.push(Symbol(SYM_SEMI));
        scan_right(r, ra, &syms);
        r.add(ra, Symbol(SYM_HASH), State(REJ_REST_STATE), Symbol(SYM_HASH), Dir::Right);
    }
    {
        let rs = State(REJ_REST_STATE);
        r.add(rs, Symbol(SYM_X), rs, Symbol(SYM_ZERO), Dir::Right);
        r.add(rs, Symbol(SYM_Y), rs, Symbol(SYM_ONE), Dir::Right);
        scan_right(r, rs, &bits());
        r.add(rs, Symbol(SYM_HASH), State(REJ_FINAL_HOME), Symbol(SYM_HASH), Dir::Left);
    }
    seek_home(r, State(REJ_FINAL_HOME), State(REJECT));
}

/// The rules of the universal machine, in the order the builder gives
/// them.
#[verifier::opaque]
pub open spec fn utm_rule_list() -> Seq<ByteRule> {
    let s = Seq::<ByteRule>::empty();
    let s = init_rules_from(s);
    let s = mark_rule_rules_from(s);
    let s = compare_state_rules_from(s);
    let s = state_bit_matched_rules_from(s);
    let s = state_match_cleanup_rules_from(s);
    let s = state_mismatch_rules_from(s);
    let s = compare_symbol_rules_from(s);
    let s = symbol_bit_matched_rules_from(s);
    let s = symbol_mismatch_rules_from(s);
    let s = symbol_match_cleanup_rules_from(s);
    let s = symbol_match_restore_rules_from(s);
    let s = copy_state_rules_from(s);
    let s = copy_state_done_rules_from(s);
    let s = copy_symbol_nav_rules_from(s);
    let s = copy_symbol_carry_rules_from(s);
    let s = copy_symbol_done_rules_from(s);
    let s = read_direction_rules_from(s);
    let s = move_right_rules_from(s);
    let s = extend_tape_rules_from(s);
    let s = extend_tape_blank_rules_from(s);
    let s = move_left_rules_from(s);
    let s = restart_rules_from(s);
    let s = check_accept_rules_from(s);
    let s = accept_bit_matched_rules_from(s);
    let s = accept_bit_mismatch_rules_from(s);
    let s = accept_next_entry_rules_from(s);
    let s = accept_rules_from(s);
    let s = reject_rules_from(s);
    s
}

/// All the rules of the universal machine, in the order they are given;
/// no two are for the same state and symbol, and the halting states have
/// none.
fn build_utm_rules() -> (r: Vec<ByteRule>)
    ensures
        built_before(r@, 28),
        r@ == utm_rule_list(),
        exists|p: Seq<ByteRule>|
            built_before(p, 25) && r@ == reject_rules_from(accept_rules_from(accept_next_entry_rules_from(p))),
{
    proof {
        reveal(utm_rule_list);
    }
    let mut r = RuleSet::new();
    init_rules(&mut r);
    mark_rule_rules(&mut r);
    compare_state_rules(&mut r);
    state_bit_matched_rules(&mut r);
    state_match_cleanup_rules(&mut r);
    state_mismatch_rules(&mut r);
    compare_symbol_rules(&mut r);
    symbol_bit_matched_rules(&mut r);
    symbol_mismatch_rules(&mut r);
    symbol_match_cleanup_rules(&mut r);
    symbol_match_restore_rules(&mut r);
    copy_state_rules(&mut r);
    copy_state_done_rules(&mut r);
    copy_symbol_nav_rules(&mut r);
    copy_symbol_carry_rules(&mut r);
    copy_symbol_done_rules(&mut r);
    read_direction_rules(&mut r);
    move_right_rules(&mut r);
    extend_tape_rules(&mut r);
    extend_tape_blank_rules(&mut r);
    move_left_rules(&mut r);
    restart_rules(&mut r);
    check_accept_rules(&mut r);
    accept_bit_matched_rules(&mut r);
    accept_bit_mismatch_rules(&mut r);
    let ghost before = r.rules@;
    accept_next_entry_rules(&mut r);
    accept_rules(&mut r);
    reject_rules(&mut r);
    assert(built_before(before, 25));
    r.rules
}

/// An entry of the table of a list of rules is set only where some rule
/// is for that state and symbol.
pub proof fn lemma_table_entry_has_rule(rules: Seq<ByteRule>, s: State, y: Symbol)
    requires
        table_of(rules)[table_index(s, y)] is Some,
    ensures
        has_key(rules, s, y),
    decreases rules.len(),
{
    if rules.len() > 0 {
        let last = rules.last();
        let prev = rules.drop_last();
        crate::byte_machine::lemma_table_of_len(prev);
        if table_index(last.0, last.1) == table_index(s, y) {
            assert(last.0 == s && last.1 == y);
            assert(rules[rules.len() - 1] == last);
        } else {
            lemma_table_entry_has_rule(prev, s, y);
            let i = choose|i: int| 0 <= i < prev.len() && (#[trigger] prev[i]).0 == s && prev[i].1 == y;
            assert(rules[i] == prev[i]);
        }
    }
}

/// The transition table of a list of rules.
fn table_from(rules: &Vec<ByteRule>) -> (t: Vec<Option<(State, Symbol, Dir)>>)
    ensures
        t@ == table_of(rules@),
{
    let mut t: Vec<Option<(State, Symbol, Dir)>> = Vec::new();
    let mut i: usize = 0;
    while i < TABLE_ENTRIES
        invariant
            i <= TABLE_ENTRIES,
            t@ == Seq::new(i as nat, |j: int| None::<(State, Symbol, Dir)>),
        decreases TABLE_ENTRIES - i,
    {
        t.push(None);
        assert(t@ =~= Seq::new((i + 1) as nat, |j: int| None::<(State, Symbol, Dir)>));
        i = i + 1;
    }
    assert(table_of(rules@.take(0)) =~= t@);
    let mut k: usize = 0;
    while k < rules.len()
        invariant
            k <= rules@.len(),
            t@ == table_of(rules@.take(k as int)),
            t@.len() == TABLE_ENTRIES,
        decreases rules.len() - k,
    {
        let x = rules[k];
        assert(rules@.take(k + 1).drop_last() =~= rules@.take(k as int));
        assert(0 <= table_index(x.0, x.1) < TABLE_ENTRIES);
        t.set(x.0.0 as usize * 256 + x.1.0 as usize, Some((x.2, x.3, x.4)));
        k = k + 1;
    }
    assert(rules@.take(k as int) =~= rules@);
    t
}

/// The names of the universal machine's states, by number.
fn utm_state_names() -> (names: Vec<String>)
    ensures
        names@.len() == N_UTM_STATES,
{
    vec![
        "acc_final_home".to_string(),
        "acc_rest_acc".to_string(),
        "acc_rest_state".to_string(),
        "accept".to_string(),
        "accept_seek_home".to_string(),
        "chk_acc_back2acc".to_string(),
        "chk_acc_c0".to_string(),
        "chk_acc_c0_find".to_string(),
        "chk_acc_c1".to_string(),
        "chk_acc_c1_find".to_string(),
        "chk_acc_do_rest".to_string(),
        "chk_acc_do_rest2".to_string(),
        "chk_acc_fail_bit".to_string(),
        "chk_acc_init".to_string(),
        "chk_acc_into_acc".to_string(),
        "chk_acc_next_entry".to_string(),
        "chk_acc_ok".to_string(),
        "chk_acc_ok_acc".to_string(),
        "chk_acc_ok_find".to_string(),
        "chk_acc_ok_skip".to_string(),
        "chk_acc_rest_state".to_string(),
        "mark_rule_no_match".to_string(),
        "ml_find_head".to_string(),
        "ml_mark".to_string(),
        "ml_nav".to_string(),
        "ml_restore".to_string(),
        "ml_s1".to_string(),
        "ml_s2".to_string(),
        "ml_s3".to_string(),
        "move_left".to_string(),
        "mr_ext_bc_next".to_string(),
        "mr_ext_bc_ret".to_string(),
        "mr_ext_bc0".to_string(),
        "mr_ext_bc1".to_string(),
        "mr_ext_h1".to_string(),
        "mr_ext_h2".to_string(),
        "mr_ext_h3".to_string(),
        "mr_ext_home".to_string(),
        "mr_ext_read_blank".to_string(),
        "mr_ext_rest_blank".to_string(),
        "mr_ext_to_blank".to_string(),
        "mr_ext_write_head".to_string(),
        "mr_extend_init".to_string(),
        "rej_final_home".to_string(),
        "rej_rest_acc".to_string(),
        "rej_rest_state".to_string(),
        "reject".to_string(),
        "reject_seek_home".to_string(),
        "stf_skip_rest".to_string(),
        "symf_skip_rest".to_string(),
        "init_skip".to_string(),
        "apply_read_nst".to_string(),
        "cp_nsym_read".to_string(),
        "init".to_string(),
        "rd_read".to_string(),
        "cp_nsym_c1_fb".to_string(),
        "cp_nsym_done".to_string(),
        "cp_nsym_nav2".to_string(),
        "cp_nsym_rn_do".to_string(),
        "cp_nsym_rn_s3".to_string(),
        "mr_place_head".to_string(),
        "mr_s3".to_string(),
        "mr_skip_cell".to_string(),
        "rd_sk2".to_string(),
        "rd_sk4".to_string(),
        "smc_rest_head".to_string(),
        "smc_rest_sym".to_string(),
        "smc_s3".to_string(),
        "cp_nsym_c0_fb".to_string(),
        "cp_nsym_c1_s3".to_string(),
        "cmp_sym_read".to_string(),
        "st_match_cleanup".to_string(),
        "stm_go_left".to_string(),
        "cp_nst_done".to_string(),
        "cp_nst_rest_do".to_string(),
        "cp_nst_rest_s1".to_string(),
        "cp_nsym_nav".to_string(),
        "cp_nsym_nav3".to_string(),
        "cp_nsym_rn_s1".to_string(),
        "cp_nsym_rn_s2".to_string(),
        "mr_s1".to_string(),
        "mr_s2".to_string(),
        "rd_sk3".to_string(),
        "rd_skip_to_dir".to_string(),
        "smc_s1".to_string(),
        "smc_s2".to_string(),
        "smc_skip_st".to_string(),
        "cp_nsym_c1_s1".to_string(),
        "cp_nsym_c1_s2".to_string(),
        "cmp_sym_c0_fb".to_string(),
        "cp_nsym_c0_s3".to_string(),
        "cmp_sym_fail".to_string(),
        "cp_nsym_fn4".to_string(),
        "cp_nst_c1_w".to_string(),
        "cp_nst_c0_w".to_string(),
        "cmp_sym_c1_fb".to_string(),
        "cp_nsym_fn2".to_string(),
        "cp_nsym_c0_s1".to_string(),
        "cp_nsym_c0_s2".to_string(),
        "move_right".to_string(),
        "cmp_sym_nb2".to_string(),
        "cp_nst_c1_s1".to_string(),
        "cp_nsym_fn3".to_string(),
        "cp_nsym_fnext".to_string(),
        "cp_nst_c0_s1".to_string(),
        "symf_rest_head".to_string(),
        "symf_rest_sym".to_string(),
        "cp_nst_next2".to_string(),
        "cmp_sym_c0_s3".to_string(),
        "cp_nst_next3".to_string(),
        "cmp_sym_c1_s3".to_string(),
        "symf_skip_st".to_string(),
        "cp_nst_next".to_string(),
        "stm_gs_sk1".to_string(),
        "stm_restore_rule".to_string(),
        "stm_restore_state".to_string(),
        "sym_skip_state".to_string(),
        "cmp_sym_c0_s1".to_string(),
        "cmp_sym_c0_s2".to_string(),
        "cmp_sym_c1_s1".to_string(),
        "cmp_sym_c1_s2".to_string(),
        "cmp_sym_nextbit".to_string(),
        "symf_deactivate".to_string(),
        "cmp_st_read".to_string(),
        "cmp_st_fail".to_string(),
        "cmp_st_c0_find".to_string(),
        "stf_go_prev".to_string(),
        "stf_restore_rule".to_string(),
        "stf_restore_state".to_string(),
        "cmp_st_c1_find".to_string(),
        "cmp_st_nextbit".to_string(),
        "cmp_st_c0_sk1".to_string(),
        "cp_nsym_rn_fh".to_string(),
        "mr_find_head".to_string(),
        "smc_fh".to_string(),
        "cp_nsym_c1_fh".to_string(),
        "cmp_st_c1_sk1".to_string(),
        "cp_nsym_rest_nav".to_string(),
        "cp_nst_rest_nav".to_string(),
        "sym_match_cleanup".to_string(),
        "mark_rule".to_string(),
        "mr_nav".to_string(),
        "cp_nsym_seek".to_string(),
        "cp_nsym_c1".to_string(),
        "cp_nsym_c0_fh".to_string(),
        "read_dir".to_string(),
        "smc_rest_done".to_string(),
        "cp_nsym_c0".to_string(),
        "cp_nst_c1".to_string(),
        "cp_nst_c0".to_string(),
        "cmp_sym_c0_fh".to_string(),
        "cmp_sym_c1_fh".to_string(),
        "init_seek_end".to_string(),
        "cp_nsym_ret".to_string(),
        "done_seek_home".to_string(),
        "cp_nst_ret".to_string(),
        "stm_goto_state".to_string(),
        "stm_back_to_rule".to_string(),
        "cmp_sym_c0".to_string(),
        "cmp_sym_c1".to_string(),
        "symf_seek_star".to_string(),
        "cmp_sym_ok".to_string(),
        "stf_find_star".to_string(),
        "cmp_st_c0".to_string(),
        "cmp_st_c1".to_string(),
        "cmp_st_ok".to_string(),
    ]
}

/// The names of the tape symbols, by number.
fn utm_symbol_names() -> (names: Vec<String>)
    ensures
        names@.len() == N_SYMBOLS,
{
    vec![
        "_".to_string(),
        "0".to_string(),
        "1".to_string(),
        "X".to_string(),
        "Y".to_string(),
        "#".to_string(),
        "|".to_string(),
        ";".to_string(),
        ",".to_string(),
        "^".to_string(),
        "l".to_string(),
        "d".to_string(),
        ".".to_string(),
        "*".to_string(),
        ">".to_string(),
        "$".to_string(),
    ]
}

/// What the universal machine is: its states and symbols, its initial,
/// accepting and blank values, its rules, those of `utm_rule_list` in that
/// order, no two of them for the same state and symbol, and a table that
/// holds exactly those rules.
pub open spec fn is_utm_shape(m: &TuringMachineSpec) -> bool {
    &&& m.wf()
    &&& m.n_states == N_UTM_STATES
    &&& m.n_symbols == N_SYMBOLS
    &&& m.initial == State(INIT)
    &&& m.accept == State(ACCEPT)
    &&& m.blank == Symbol(SYM_BLANK)
    &&& m.accepting@ == Seq::new(N_UTM_STATES as nat, |i: int| i == ACCEPT as int)
    &&& m.state_names@.len() == N_UTM_STATES
    &&& m.symbol_names@.len() == N_SYMBOLS
    &&& m.ordered_rules@ == utm_rule_list()
    &&& keys_distinct(m.ordered_rules@)
    &&& m.transitions@ == table_of(m.ordered_rules@)
    &&& forall|y: Symbol|
        #[trigger] m.transitions@[table_index(State(ACCEPT), y)] is None
            && m.transitions@[table_index(State(REJECT), y)] is None
}

/// The universal machine.
pub fn build_utm_spec() -> (r: TuringMachineSpec)
    ensures
        is_utm_shape(&r),
        crate::byte_accept::next_entry_keys_only(&r),
{
    let rules = build_utm_rules();
    let mut accepting: Vec<bool> = Vec::new();
    let mut i: usize = 0;
    while i < N_UTM_STATES
        invariant
            i <= N_UTM_STATES,
            accepting@ == Seq::new(i as nat, |j: int| j == ACCEPT as int),
        decreases N_UTM_STATES - i,
    {
        accepting.push(i == ACCEPT as usize);
        assert(accepting@ =~= Seq::new((i + 1) as nat, |j: int| j == ACCEPT as int));
        i = i + 1;
    }
    let transitions = table_from(&rules);
    proof {
        let p = choose|p: Seq<ByteRule>|
            built_before(p, 25) && rules@ == reject_rules_from(accept_rules_from(accept_next_entry_rules_from(p)));
        crate::byte_accept::lemma_next_entry_keys(rules@, p);
        crate::byte_machine::lemma_table_of_len(rules@);
        assert forall|y: Symbol| #[trigger] transitions@[table_index(State(ACCEPT), y)] is None
            && transitions@[table_index(State(REJECT), y)] is None by {
            if transitions@[table_index(State(ACCEPT), y)] is Some {
                lemma_table_entry_has_rule(rules@, State(ACCEPT), y);
            }
            if transitions@[table_index(State(REJECT), y)] is Some {
                lemma_table_entry_has_rule(rules@, State(REJECT), y);
            }
        }
    }
    TuringMachineSpec {
        n_states: N_UTM_STATES,
        n_symbols: N_SYMBOLS,
        initial: State(INIT),
        accept: State(ACCEPT),
        blank: Symbol(SYM_BLANK),
        accepting,
        transitions,
        state_names: utm_state_names(),
        symbol_names: utm_symbol_names(),
        ordered_rules: rules,
    }
}

/// The part of a tape before its first `^`, and that `^` is there.
pub open spec fn is_header_of(header: Seq<Symbol>, tape: Seq<Symbol>) -> bool {
    &&& header.len() < tape.len()
    &&& header == tape.take(header.len() as int)
    &&& tape[header.len() as int] == Symbol(SYM_CARET)
    &&& forall|i: int| 0 <= i < header.len() ==> #[trigger] header[i] != Symbol(SYM_CARET)
}

/// The tape of a machine simulating itself, up to the head marker of its
/// first cell: everything before the first `^` of its encoding on an empty
/// input.
pub fn utm_tape_header(utm: &TuringMachineSpec) -> (r: Vec<Symbol>)
    ensures
        is_header_of(r@, encode_spec(utm, Seq::empty(), 0, utm.initial)),
{
    let empty: Vec<Symbol> = Vec::new();
    let full = encode_tape(utm, empty.as_slice(), 0, None);
    let ghost head_at: int = full@.len() - cells_code(Seq::empty(), utm.blank, 0, crate::binary::spec_num_bits(utm.n_symbols as nat), 1).len();
    proof {
        let yb = crate::binary::spec_num_bits(utm.n_symbols as nat);
        assert(empty@ =~= Seq::<Symbol>::empty());
        assert(tape_cells(Seq::<Symbol>::empty()) == 1);
        let cells = cells_code(Seq::empty(), utm.blank, 0, yb, 1);
        assert(cells == cells_code(Seq::empty(), utm.blank, 0, yb, 0) + cell_code(Seq::empty(), utm.blank, 0, yb, 0));
        assert(cells[0] == Symbol(SYM_CARET));
        assert(full@[head_at] == cells[0]);
    }
    let mut header: Vec<Symbol> = Vec::new();
    let mut i: usize = 0;
    while !(full[i] == Symbol(SYM_CARET))
        invariant
            i <= head_at,
            0 <= head_at < full.len(),
            full@[head_at] == Symbol(SYM_CARET),
            header@ == full@.take(i as int),
            forall|j: int| 0 <= j < i ==> #[trigger] full@[j] != Symbol(SYM_CARET),
        decreases head_at - i,
    {
        assert(i < head_at);
        header.push(full[i]);
        assert(header@ =~= full@.take(i + 1));
        i = i + 1;
    }
    header
}

/// The header of the infinite tape: the universal machine's own tape for
/// an empty input, up to the head marker of its first cell.
pub fn infinite_utm_tape_header() -> (r: Vec<Symbol>)
    ensures
        exists|utm: TuringMachineSpec|
            is_utm_shape(&utm) && is_header_of(r@, encode_spec(&utm, Seq::empty(), 0, utm.initial)),
{
    let utm = build_utm_spec();
    utm_tape_header(&utm)
}

} // verus!
