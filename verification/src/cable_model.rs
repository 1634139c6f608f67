//! The cable model a venue or request names.

use vstd::prelude::*;

use crate::text::{chars_of, push_chars, push_str, string_of, vec_eq_str};

verus! {

/// The kind of cable model: straight ideal cables, cables leaving over a
/// pulley, or sagging elastic cables. (The pulley radius and sag parameters
/// travel beside the kind.)
#[derive(Clone, Copy, Debug, PartialEq, Eq, Structural)]
pub enum CableModelKind {
    Ideal,
    Pulley,
    Sag,
}

/// The name of a cable model kind.
pub open spec fn model_name(m: CableModelKind) -> Seq<char> {
    match m {
        CableModelKind::Ideal => "ideal"@,
        CableModelKind::Pulley => "pulley"@,
        CableModelKind::Sag => "sag"@,
    }
}

/// The kind a name stands for, or the error for an unknown name.
pub open spec fn model_from_name(s: Seq<char>) -> Result<CableModelKind, Seq<char>> {
    if s == "ideal"@ {
        Ok(CableModelKind::Ideal)
    } else if s == "pulley"@ {
        Ok(CableModelKind::Pulley)
    } else if s == "sag"@ {
        Ok(CableModelKind::Sag)
    } else {
        Err("unknown cable model: "@ + s)
    }
}

/// Convert a cable model kind to its API string.
pub fn cable_model_str(model: &CableModelKind) -> (s: &'static str)
    ensures
        s@ == model_name(*model),
{
    match model {
        CableModelKind::Ideal => "ideal",
        CableModelKind::Pulley => "pulley",
        CableModelKind::Sag => "sag",
    }
}

/// Parse an API cable model string ([`model_from_name`]).
pub fn cable_model_from_name(name: &str) -> (r: Result<CableModelKind, String>)
    ensures
        match model_from_name(name@) {
            Ok(m) => r == Ok::<CableModelKind, String>(m),
            Err(e) => r matches Err(t) && t@ == e,
        },
{
    let v = chars_of(name);
    if vec_eq_str(&v, "ideal") {
        Ok(CableModelKind::Ideal)
    } else if vec_eq_str(&v, "pulley") {
        Ok(CableModelKind::Pulley)
    } else if vec_eq_str(&v, "sag") {
        Ok(CableModelKind::Sag)
    } else {
        let mut m: Vec<char> = Vec::new();
        push_str(&mut m, "unknown cable model: ");
        push_chars(&mut m, &v);
        Err(string_of(&m))
    }
}

/// Naming a kind and reading the name back gives the kind again, and a
/// name that reads as a kind is that kind's name.
pub proof fn lemma_model_name_round_trip(m: CableModelKind, s: Seq<char>)
    ensures
        model_from_name(model_name(m)) == Ok::<CableModelKind, Seq<char>>(m),
        model_from_name(s) matches Ok(k) ==> model_name(k) == s,
{
    reveal_strlit("ideal");
    reveal_strlit("pulley");
    reveal_strlit("sag");
    assert("ideal"@.len() == 5 && "pulley"@.len() == 6 && "sag"@.len() == 3);
    assert("ideal"@ != "pulley"@ && "ideal"@ != "sag"@ && "pulley"@ != "sag"@);
}

} // verus!
