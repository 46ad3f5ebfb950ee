use utmmmmm::diagram::{cluster_for, drawn_rules};
use utmmmmm::tm::Dir;

#[test]
fn states_fall_into_their_phases() {
    assert_eq!(cluster_for("InitSkip"), ("init", "Phase 0: Init"));
    assert_eq!(cluster_for("MarkRuleNoMatch"), ("mark_rule", "Phase 1: Mark Rule"));
    assert_eq!(cluster_for("MarkRuleX"), ("other", "Other"));
    assert_eq!(cluster_for("StmGoLeft"), ("cmp_state", "Phase 2: Compare State"));
    assert_eq!(cluster_for("SymSkipState"), ("cmp_state", "Phase 2: Compare State"));
    assert_eq!(cluster_for("SmcS1"), ("cmp_sym", "Phase 3: Compare Symbol"));
    assert_eq!(cluster_for("ApplyReadNst"), ("cp_nst", "Phase 4: Copy New State"));
    assert_eq!(cluster_for("CpNsymRead"), ("cp_nsym", "Phase 5: Copy New Symbol"));
    assert_eq!(cluster_for("ReadDir"), ("read_dir", "Phase 6: Read Direction"));
    assert_eq!(cluster_for("MrExtHome"), ("move_right", "Move Right"));
    assert_eq!(cluster_for("MoveLeft"), ("move_left", "Move Left"));
    assert_eq!(cluster_for("DoneSeekHome"), ("seek_home", "Phase 7: Seek Home"));
    assert_eq!(cluster_for("NmSomething"), ("chk_acc", "Phase 8: Check Accept"));
    assert_eq!(cluster_for("Accept"), ("accept", "Accept"));
    assert_eq!(cluster_for("AccRestAcc"), ("accept", "Accept"));
    assert_eq!(cluster_for("RejFinalHome"), ("reject", "Reject"));
    assert_eq!(cluster_for(""), ("other", "Other"));
}

#[test]
fn only_rules_that_change_something_are_drawn() {
    let rules: Vec<(u8, u8, u8, u8, Dir)> = vec![
        (0, 1, 0, 1, Dir::Right),
        (0, 1, 0, 2, Dir::Right),
        (0, 2, 1, 2, Dir::Left),
        (1, 1, 1, 1, Dir::Left),
    ];
    assert_eq!(drawn_rules(&rules), vec![(0, 1, 0, 2, Dir::Right), (0, 2, 1, 2, Dir::Left)]);
}
