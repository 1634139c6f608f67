//! The input-count checks that forward kinematics makes before it solves:
//! how many anchors, cable lengths and platform attachments a solve needs.
//! (The solves themselves are real-valued and stay outside the proofs.)

use vstd::prelude::*;

verus! {

/// Why a point-mass solve refuses its inputs, if it does: the anchors and
/// lengths must match in number, with at least three; attachments, when any
/// are given, must match the anchors.
pub open spec fn point_mass_fk_refusal(anchors: nat, lengths: nat, attachments: nat) -> Option<Seq<char>> {
    if anchors != lengths || anchors < 3 {
        Some("FK needs matching anchors/lengths with n >= 3"@)
    } else if attachments != 0 && attachments != anchors {
        Some("attachments must match anchor count"@)
    } else {
        None
    }
}

/// Why a 6-DOF platform solve refuses its inputs, if it does: anchors,
/// attachments and lengths must match in number, with at least three, and at
/// least six unless an under-constrained solve is allowed.
pub open spec fn platform_fk_refusal(anchors: nat, attachments: nat, lengths: nat, allow_underconstrained: bool) -> Option<Seq<char>> {
    if anchors != lengths || anchors != attachments || anchors < 3 {
        Some("platform FK needs matching anchors/attachments/lengths with m >= 3"@)
    } else if !allow_underconstrained && anchors < 6 {
        Some(
            "platform FK requires m >= 6 cables for full 6-DOF observability (set FkOptions.allow_underconstrained = true to override)"@,
        )
    } else {
        None
    }
}

/// Checks the counts of a point-mass solve; `Err` holds the configuration
/// message.
pub fn point_mass_fk_inputs(anchors: usize, lengths: usize, attachments: usize) -> (r: Result<(), String>)
    ensures
        match point_mass_fk_refusal(anchors as nat, lengths as nat, attachments as nat) {
            Some(m) => r matches Err(s) && s@ == m,
            None => r is Ok,
        },
{
    if anchors != lengths || anchors < 3 {
        return Err(String::from_str("FK needs matching anchors/lengths with n >= 3"));
    }
    if attachments != 0 && attachments != anchors {
        return Err(String::from_str("attachments must match anchor count"));
    }
    Ok(())
}

/// Checks the counts of a 6-DOF platform solve; `Err` holds the
/// configuration message.
pub fn platform_fk_inputs(anchors: usize, attachments: usize, lengths: usize, allow_underconstrained: bool) -> (r: Result<(), String>)
    ensures
        match platform_fk_refusal(anchors as nat, attachments as nat, lengths as nat, allow_underconstrained) {
            Some(m) => r matches Err(s) && s@ == m,
            None => r is Ok,
        },
{
    if anchors != lengths || anchors != attachments || anchors < 3 {
        return Err(String::from_str("platform FK needs matching anchors/attachments/lengths with m >= 3"));
    }
    if !allow_underconstrained && anchors < 6 {
        return Err(
            String::from_str(
                "platform FK requires m >= 6 cables for full 6-DOF observability (set FkOptions.allow_underconstrained = true to override)",
            ),
        );
    }
    Ok(())
}


/// A point-mass solve accepts its counts exactly when there are as many
/// lengths as anchors, at least three of them, and either no attachments or
/// one per anchor; the count message comes exactly when the anchors and
/// lengths differ in number or are fewer than three.
pub proof fn lemma_point_mass_counts(anchors: nat, lengths: nat, attachments: nat)
    ensures
        point_mass_fk_refusal(anchors, lengths, attachments) is None <==> (anchors == lengths && anchors >= 3
            && (attachments == 0 || attachments == anchors)),
        point_mass_fk_refusal(anchors, lengths, attachments) == Some("FK needs matching anchors/lengths with n >= 3"@)
            <==> (anchors != lengths || anchors < 3),
        point_mass_fk_refusal(anchors, lengths, attachments) == Some("attachments must match anchor count"@)
            <==> (anchors == lengths && anchors >= 3 && attachments != 0 && attachments != anchors),
{
    reveal_strlit("FK needs matching anchors/lengths with n >= 3");
    reveal_strlit("attachments must match anchor count");
    assert("FK needs matching anchors/lengths with n >= 3"@ != "attachments must match anchor count"@) by {
        assert("FK needs matching anchors/lengths with n >= 3"@[0] != "attachments must match anchor count"@[0]);
    }
}

/// A platform solve accepts its counts exactly when anchors, attachments and
/// lengths match in number, with at least six of each, or at least three
/// when an under-constrained solve is allowed.
pub proof fn lemma_platform_counts(anchors: nat, attachments: nat, lengths: nat, allow_underconstrained: bool)
    ensures
        platform_fk_refusal(anchors, attachments, lengths, allow_underconstrained) is None <==> (anchors
            == lengths && anchors == attachments && anchors >= (if allow_underconstrained {
            3nat
        } else {
            6nat
        })),
        platform_fk_refusal(anchors, attachments, lengths, allow_underconstrained) == Some(
            "platform FK needs matching anchors/attachments/lengths with m >= 3"@,
        ) <==> (anchors != lengths || anchors != attachments || anchors < 3),
{
    reveal_strlit("platform FK needs matching anchors/attachments/lengths with m >= 3");
    reveal_strlit(
        "platform FK requires m >= 6 cables for full 6-DOF observability (set FkOptions.allow_underconstrained = true to override)",
    );
    assert("platform FK needs matching anchors/attachments/lengths with m >= 3"@
        != "platform FK requires m >= 6 cables for full 6-DOF observability (set FkOptions.allow_underconstrained = true to override)"@)
        by {
        assert("platform FK needs matching anchors/attachments/lengths with m >= 3"@[12]
            != "platform FK requires m >= 6 cables for full 6-DOF observability (set FkOptions.allow_underconstrained = true to override)"@[12]);
    }
}

} // verus!
