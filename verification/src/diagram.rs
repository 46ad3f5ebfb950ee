//! The universal machine as a flowchart: which phase each state belongs
//! to, and which rules are drawn as edges.
use vstd::prelude::*;
use vstd::string::StrSliceExecFns;

use crate::tm::{same_label, Label, Rule};

verus! {

/// `p` begins `name`.
pub open spec fn starts(name: Seq<char>, p: Seq<char>) -> bool {
    p.len() <= name.len() && name.subrange(0, p.len() as int) == p
}

/// The cluster of a state of the universal machine, by its name: the
/// cluster's id and its label.
pub open spec fn cluster_of(n: Seq<char>) -> (Seq<char>, Seq<char>) {
    if starts(n, "Init"@) {
        ("init"@, "Phase 0: Init"@)
    } else if n == "MarkRule"@ || n == "MarkRuleNoMatch"@ {
        ("mark_rule"@, "Phase 1: Mark Rule"@)
    } else if starts(n, "CmpSt"@) || starts(n, "Stm"@) || starts(n, "Stf"@) || n == "StMatchCleanup"@
        || n == "SymSkipState"@ {
        ("cmp_state"@, "Phase 2: Compare State"@)
    } else if starts(n, "CmpSym"@) || starts(n, "Symf"@) || n == "SymMatchCleanup"@ || starts(n, "Smc"@) {
        ("cmp_sym"@, "Phase 3: Compare Symbol"@)
    } else if starts(n, "CpNst"@) || n == "ApplyReadNst"@ {
        ("cp_nst"@, "Phase 4: Copy New State"@)
    } else if starts(n, "CpNsym"@) {
        ("cp_nsym"@, "Phase 5: Copy New Symbol"@)
    } else if starts(n, "Rd"@) || n == "ReadDir"@ {
        ("read_dir"@, "Phase 6: Read Direction"@)
    } else if starts(n, "Mr"@) || n == "MoveRight"@ {
        ("move_right"@, "Move Right"@)
    } else if starts(n, "Ml"@) || n == "MoveLeft"@ {
        ("move_left"@, "Move Left"@)
    } else if n == "DoneSeekHome"@ {
        ("seek_home"@, "Phase 7: Seek Home"@)
    } else if starts(n, "ChkAcc"@) || starts(n, "Nm"@) {
        ("chk_acc"@, "Phase 8: Check Accept"@)
    } else if starts(n, "Acc"@) || n == "Accept"@ {
        ("accept"@, "Accept"@)
    } else if starts(n, "Rej"@) || n == "Reject"@ {
        ("reject"@, "Reject"@)
    } else {
        ("other"@, "Other"@)
    }
}

/// Whether `p` begins `name`.
fn starts_with(name: &str, p: &str) -> (b: bool)
    ensures
        b == starts(name@, p@),
{
    let n = name.unicode_len();
    let m = p.unicode_len();
    if m > n {
        return false;
    }
    let mut i: usize = 0;
    while i < m
        invariant
            n == name@.len(),
            m == p@.len(),
            m <= n,
            i <= m,
            forall|k: int| 0 <= k < i ==> name@[k] == p@[k],
        decreases m - i,
    {
        if name.get_char(i) != p.get_char(i) {
            assert(name@.subrange(0, m as int)[i as int] != p@[i as int]);
            return false;
        }
        i = i + 1;
    }
    assert(name@.subrange(0, m as int) =~= p@);
    true
}

/// Whether two strings hold the same characters.
fn same(name: &str, p: &str) -> (b: bool)
    ensures
        b == (name@ == p@),
{
    let r = name.unicode_len() == p.unicode_len() && starts_with(name, p);
    proof {
        if name@.len() == p@.len() {
            assert(name@.subrange(0, p@.len() as int) =~= name@);
        }
    }
    r
}

/// The cluster of a state of the universal machine, by its name.
pub fn cluster_for(state_name: &str) -> (r: (&'static str, &'static str))
    ensures
        (r.0@, r.1@) == cluster_of(state_name@),
{
    let n = state_name;
    if starts_with(n, "Init") {
        ("init", "Phase 0: Init")
    } else if same(n, "MarkRule") || same(n, "MarkRuleNoMatch") {
        ("mark_rule", "Phase 1: Mark Rule")
    } else if starts_with(n, "CmpSt") || starts_with(n, "Stm") || starts_with(n, "Stf") || same(n, "StMatchCleanup")
        || same(n, "SymSkipState") {
        ("cmp_state", "Phase 2: Compare State")
    } else if starts_with(n, "CmpSym") || starts_with(n, "Symf") || same(n, "SymMatchCleanup") || starts_with(n, "Smc") {
        ("cmp_sym", "Phase 3: Compare Symbol")
    } else if starts_with(n, "CpNst") || same(n, "ApplyReadNst") {
        ("cp_nst", "Phase 4: Copy New State")
    } else if starts_with(n, "CpNsym") {
        ("cp_nsym", "Phase 5: Copy New Symbol")
    } else if starts_with(n, "Rd") || same(n, "ReadDir") {
        ("read_dir", "Phase 6: Read Direction")
    } else if starts_with(n, "Mr") || same(n, "MoveRight") {
        ("move_right", "Move Right")
    } else if starts_with(n, "Ml") || same(n, "MoveLeft") {
        ("move_left", "Move Left")
    } else if same(n, "DoneSeekHome") {
        ("seek_home", "Phase 7: Seek Home")
    } else if starts_with(n, "ChkAcc") || starts_with(n, "Nm") {
        ("chk_acc", "Phase 8: Check Accept")
    } else if starts_with(n, "Acc") || same(n, "Accept") {
        ("accept", "Accept")
    } else if starts_with(n, "Rej") || same(n, "Reject") {
        ("reject", "Reject")
    } else {
        ("other", "Other")
    }
}

/// The rules that a flowchart draws: all but those that keep both the
/// state and the symbol.
pub fn drawn_rules<S: Label, Y: Label>(rules: &Vec<Rule<S, Y>>) -> (r: Vec<Rule<S, Y>>)
    ensures
        r@ == rules@.filter(|t: Rule<S, Y>| !(t.0 == t.2 && t.1 == t.3)),
{
    let ghost keep = |t: Rule<S, Y>| !(t.0 == t.2 && t.1 == t.3);
    let mut r: Vec<Rule<S, Y>> = Vec::new();
    let mut i: usize = 0;
    while i < rules.len()
        invariant
            i <= rules@.len(),
            keep == (|t: Rule<S, Y>| !(t.0 == t.2 && t.1 == t.3)),
            r@ == rules@.take(i as int).filter(keep),
        decreases rules.len() - i,
    {
        let t = rules[i];
        let same_state = same_label(&t.0, &t.2);
        let same_sym = same_label(&t.1, &t.3);
        proof {
            reveal(Seq::filter);
            assert(rules@.take(i + 1).drop_last() =~= rules@.take(i as int));
        }
        if !(same_state && same_sym) {
            r.push(t);
        }
        i = i + 1;
    }
    assert(rules@.take(i as int) =~= rules@);
    r
}

} // verus!
