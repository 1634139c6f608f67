//! Restraint classification of cable-driven parallel robots by cable count
//! `m` and platform degrees of freedom `n`.

use vstd::prelude::*;

verus! {

/// Restraint class from cable count `m` vs platform DOF `n`.
#[derive(Clone, Copy, Debug, PartialEq, Eq, Structural)]
pub enum RestraintClass {
    /// Incompletely restrained: `m < n` (cannot resist arbitrary wrenches).
    Irpm,
    /// Completely restrained: `m == n`.
    Crpm,
    /// Redundantly restrained: `m > n`.
    Rrpm,
}

/// A `Result` whose error text is taken by its characters.
pub open spec fn err_text<T>(r: Result<T, String>) -> Result<T, Seq<char>> {
    match r {
        Ok(v) => Ok(v),
        Err(e) => Err(e@),
    }
}

impl RestraintClass {
    /// Short name of the class.
    pub open spec fn name(self) -> Seq<char> {
        match self {
            RestraintClass::Irpm => "IRPM"@,
            RestraintClass::Crpm => "CRPM"@,
            RestraintClass::Rrpm => "RRPM"@,
        }
    }

    /// Stable short name (`IRPM` / `CRPM` / `RRPM`).
    pub fn as_str(self) -> (s: &'static str)
        ensures
            s@ == self.name(),
    {
        match self {
            RestraintClass::Irpm => "IRPM",
            RestraintClass::Crpm => "CRPM",
            RestraintClass::Rrpm => "RRPM",
        }
    }
}

/// The class that cable count `m` gives against `n` degrees of freedom.
pub open spec fn class_by_count(m: int, n: int) -> RestraintClass {
    if m < n {
        RestraintClass::Irpm
    } else if m == n {
        RestraintClass::Crpm
    } else {
        RestraintClass::Rrpm
    }
}

/// Classification by counts, with the errors for a robot without cables or
/// without degrees of freedom.
pub open spec fn classify_spec(m: int, n: int) -> Result<RestraintClass, Seq<char>> {
    if m == 0 {
        Err("need at least one cable"@)
    } else if n == 0 {
        Err("DOF n must be > 0"@)
    } else {
        Ok(class_by_count(m, n))
    }
}

/// Classification that also weighs the structure-matrix rank.
pub open spec fn classify_ranked_spec(m: int, n: int, rank: int) -> Result<RestraintClass, Seq<char>> {
    if rank < n {
        Ok(RestraintClass::Irpm)
    } else if m == n && rank == n {
        Ok(RestraintClass::Crpm)
    } else if m > n && rank >= n {
        Ok(RestraintClass::Rrpm)
    } else {
        classify_spec(m, n)
    }
}

/// Classify a CDPR by cable count and DOF.
pub fn classify_restraint(m: usize, n: usize) -> (r: Result<RestraintClass, String>)
    ensures
        err_text(r) == classify_spec(m as int, n as int),
{
    if m == 0 {
        return Err(String::from_str("need at least one cable"));
    }
    if n == 0 {
        return Err(String::from_str("DOF n must be > 0"));
    }
    Ok(
        if m < n {
            RestraintClass::Irpm
        } else if m == n {
            RestraintClass::Crpm
        } else {
            RestraintClass::Rrpm
        },
    )
}

/// Classify using cable count and measured structure-matrix rank.
pub fn classify_restraint_ranked(m: usize, n: usize, rank: usize) -> (r: Result<
    RestraintClass,
    String,
>)
    ensures
        err_text(r) == classify_ranked_spec(m as int, n as int, rank as int),
{
    if rank < n {
        Ok(RestraintClass::Irpm)
    } else if m == n && rank == n {
        Ok(RestraintClass::Crpm)
    } else if m > n && rank >= n {
        Ok(RestraintClass::Rrpm)
    } else {
        classify_restraint(m, n)
    }
}

/// With a full-rank structure matrix (rank at least `n`, for `n > 0`), the
/// ranked classification agrees with the classification by counts alone.
pub proof fn lemma_full_rank_agrees(m: int, n: int, rank: int)
    requires
        0 <= m,
        0 < n,
        n <= rank,
    ensures
        classify_ranked_spec(m, n, rank) == classify_spec(m, n),
{
}

/// A rank-deficient structure matrix always classifies as incompletely
/// restrained, whatever the cable count.
pub proof fn lemma_rank_deficient_is_irpm(m: int, n: int, rank: int)
    requires
        rank < n,
    ensures
        classify_ranked_spec(m, n, rank) == Ok::<RestraintClass, Seq<char>>(RestraintClass::Irpm),
{
}

/// Classification by counts succeeds exactly when there is at least one cable
/// and at least one degree of freedom, and then orders the classes by `m - n`.
pub proof fn lemma_classify_total(m: int, n: int)
    requires
        0 < m,
        0 < n,
    ensures
        classify_spec(m, n) is Ok,
        (classify_spec(m, n) == Ok::<RestraintClass, Seq<char>>(RestraintClass::Irpm)) <==> m < n,
        (classify_spec(m, n) == Ok::<RestraintClass, Seq<char>>(RestraintClass::Crpm)) <==> m == n,
        (classify_spec(m, n) == Ok::<RestraintClass, Seq<char>>(RestraintClass::Rrpm)) <==> m > n,
{
}

} // verus!
