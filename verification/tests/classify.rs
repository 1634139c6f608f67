use spyder::classify::{classify_restraint, classify_restraint_ranked, RestraintClass};

#[test]
fn rect4_point_mass_is_rrpm() {
    assert_eq!(classify_restraint(4, 3).unwrap(), RestraintClass::Rrpm);
}

#[test]
fn triangle_point_mass_is_crpm() {
    assert_eq!(classify_restraint(3, 3).unwrap(), RestraintClass::Crpm);
}

#[test]
fn two_cables_point_mass_is_irpm() {
    assert_eq!(classify_restraint(2, 3).unwrap(), RestraintClass::Irpm);
}

#[test]
fn eight_cable_platform_is_rrpm() {
    assert_eq!(classify_restraint(8, 6).unwrap(), RestraintClass::Rrpm);
}

#[test]
fn classify_rejects_no_cables_then_no_dof() {
    assert_eq!(classify_restraint(0, 3).unwrap_err(), "need at least one cable");
    assert_eq!(classify_restraint(0, 0).unwrap_err(), "need at least one cable");
    assert_eq!(classify_restraint(4, 0).unwrap_err(), "DOF n must be > 0");
}

#[test]
fn class_names_are_stable() {
    assert_eq!(RestraintClass::Irpm.as_str(), "IRPM");
    assert_eq!(RestraintClass::Crpm.as_str(), "CRPM");
    assert_eq!(RestraintClass::Rrpm.as_str(), "RRPM");
}

#[test]
fn ranked_rank_deficient_is_irpm() {
    // Four cables on three DOF, but the structure matrix has rank 2.
    assert_eq!(classify_restraint_ranked(4, 3, 2).unwrap(), RestraintClass::Irpm);
    assert_eq!(classify_restraint_ranked(0, 3, 0).unwrap(), RestraintClass::Irpm);
}

#[test]
fn ranked_full_rank_agrees_with_count() {
    assert_eq!(classify_restraint_ranked(3, 3, 3).unwrap(), RestraintClass::Crpm);
    assert_eq!(classify_restraint_ranked(8, 6, 6).unwrap(), RestraintClass::Rrpm);
    assert_eq!(classify_restraint_ranked(4, 3, 3).unwrap(), classify_restraint(4, 3).unwrap());
}

#[test]
fn ranked_falls_back_to_count() {
    // Rank at least n but fewer cables than DOF: the count decides.
    assert_eq!(classify_restraint_ranked(2, 3, 3).unwrap(), RestraintClass::Irpm);
    assert_eq!(classify_restraint_ranked(0, 3, 5).unwrap_err(), "need at least one cable");
    assert_eq!(classify_restraint_ranked(3, 0, 0).unwrap(), RestraintClass::Rrpm);
}
