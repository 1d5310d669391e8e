//! Which member of a repaired family stands for it.
use tinyflows::adaptive::ledger::Score;
use tinyflows::adaptive::promotion::{champion, champion_index, rate_is_below, standing, Standing};

fn family(members: &[(&str, u32, u32)]) -> Vec<(String, Score)> {
    members
        .iter()
        .map(|(id, applied, helped)| {
            ((*id).to_string(), Score { applied: *applied, helped: *helped })
        })
        .collect()
}

#[test]
fn a_lone_workflow_is_its_own_champion() {
    assert_eq!(champion(&family(&[("weekly", 0, 0)])), Some("weekly"));
}

#[test]
fn a_fresh_variant_does_not_displace_a_proven_parent() {
    // The expensive mistake: an untested graph taking over for everyone and
    // spending other people's episodes finding out it was worse.
    let f = family(&[("weekly", 40, 40), ("weekly-fix-abc", 0, 0)]);
    assert_eq!(champion(&f), Some("weekly"));
    assert_eq!(standing("weekly-fix-abc", &f), Standing::Unproven);
}

#[test]
fn a_variant_takes_over_once_it_has_proven_better() {
    let f = family(&[("weekly", 10, 5), ("weekly-fix-abc", 4, 4)]);
    assert_eq!(champion(&f), Some("weekly-fix-abc"));
    assert_eq!(standing("weekly", &f), Standing::Beaten);
    assert_eq!(standing("weekly-fix-abc", &f), Standing::Champion);
}

#[test]
fn a_variant_proven_worse_stays_out() {
    let f = family(&[("weekly", 10, 9), ("weekly-fix-abc", 5, 1)]);
    assert_eq!(champion(&f), Some("weekly"));
    assert_eq!(standing("weekly-fix-abc", &f), Standing::Beaten);
}

#[test]
fn more_trials_win_the_tie_because_they_are_not_the_same_evidence() {
    // 40/40 and 3/3 are the same rate. They are not the same claim.
    let f = family(&[("weekly", 40, 40), ("weekly-fix-abc", 3, 3)]);
    assert_eq!(champion(&f), Some("weekly"));
}

#[test]
fn an_unproven_root_still_holds_the_position() {
    // Nothing in the family has earned it, so nothing takes it.
    let f = family(&[("weekly", 1, 0), ("weekly-fix-abc", 2, 2)]);
    assert_eq!(champion(&f), Some("weekly"));
}

#[test]
fn one_proven_member_wins_even_when_the_root_is_unproven() {
    let f = family(&[("weekly", 2, 0), ("weekly-fix-abc", 3, 2)]);
    assert_eq!(champion(&f), Some("weekly-fix-abc"));
}

#[test]
fn a_workflow_outside_the_family_reads_as_unproven_rather_than_panicking() {
    let f = family(&[("weekly", 40, 40)]);
    assert_eq!(standing("something-else", &f), Standing::Unproven);
}

#[test]
fn an_empty_family_has_no_champion() {
    assert_eq!(champion(&[]), None);
}

#[test]
fn rates_are_compared_as_fractions() {
    assert!(rate_is_below(3, 1, 5, 2));
    assert!(!rate_is_below(5, 2, 3, 1));
    assert!(!rate_is_below(4, 2, 2, 1));
    assert!(!rate_is_below(u32::MAX, u32::MAX, u32::MAX, u32::MAX));
    assert!(rate_is_below(u32::MAX, u32::MAX - 1, u32::MAX, u32::MAX));
}

#[test]
fn a_champion_is_a_member_and_stands_as_one() {
    let f = family(&[("a", 3, 1), ("b", 6, 5), ("c", 9, 2)]);
    assert_eq!(champion_index(&f), Some(1));
    assert_eq!(champion(&f), Some("b"));
    assert_eq!(standing("b", &f), Standing::Champion);
}
