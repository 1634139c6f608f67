use spyder::fk_inputs::{platform_fk_inputs, point_mass_fk_inputs};

#[test]
fn point_mass_counts() {
    assert!(point_mass_fk_inputs(4, 4, 0).is_ok());
    assert!(point_mass_fk_inputs(4, 4, 4).is_ok());
    assert_eq!(point_mass_fk_inputs(4, 3, 0).unwrap_err(), "FK needs matching anchors/lengths with n >= 3");
    assert_eq!(point_mass_fk_inputs(2, 2, 0).unwrap_err(), "FK needs matching anchors/lengths with n >= 3");
    assert_eq!(point_mass_fk_inputs(4, 4, 3).unwrap_err(), "attachments must match anchor count");
}

#[test]
fn platform_counts() {
    assert!(platform_fk_inputs(8, 8, 8, false).is_ok());
    assert!(platform_fk_inputs(4, 4, 4, true).is_ok());
    assert_eq!(
        platform_fk_inputs(4, 4, 4, false).unwrap_err(),
        "platform FK requires m >= 6 cables for full 6-DOF observability (set FkOptions.allow_underconstrained = true to override)"
    );
    assert_eq!(
        platform_fk_inputs(6, 5, 6, true).unwrap_err(),
        "platform FK needs matching anchors/attachments/lengths with m >= 3"
    );
    assert_eq!(
        platform_fk_inputs(2, 2, 2, true).unwrap_err(),
        "platform FK needs matching anchors/attachments/lengths with m >= 3"
    );
}
