//! Error types of the toolkit and their messages.

use vstd::prelude::*;

verus! {

/// `prefix` followed by `s`.
fn prefixed(prefix: &str, s: &String) -> (r: String)
    ensures
        r@ == prefix@ + s@,
{
    String::from_str(prefix).concat(s.as_str())
}

/// Runtime errors of the motor backends and playback.
#[derive(Clone, Debug, PartialEq, Eq)]
pub enum RuntimeError {
    /// Kinematics / configuration failure, by its message.
    Core(String),
    /// Backend / transport failure.
    Backend(String),
    /// Bad arguments.
    Config(String),
    /// Soft-limit / e-stop / slack violation.
    Safety(String),
}

impl RuntimeError {
    /// The error's message.
    pub open spec fn message_spec(&self) -> Seq<char> {
        match self {
            RuntimeError::Core(s) => s@,
            RuntimeError::Backend(s) => "backend: "@ + s@,
            RuntimeError::Config(s) => s@,
            RuntimeError::Safety(s) => "safety: "@ + s@,
        }
    }

    /// The error's message (its display text).
    pub fn message(&self) -> (r: String)
        ensures
            r@ == self.message_spec(),
    {
        match self {
            RuntimeError::Core(s) => s.clone(),
            RuntimeError::Backend(s) => prefixed("backend: ", s),
            RuntimeError::Config(s) => s.clone(),
            RuntimeError::Safety(s) => prefixed("safety: ", s),
        }
    }
}

/// Motor configuration errors.
#[derive(Clone, Debug, PartialEq, Eq)]
pub enum MotorError {
    /// Invalid parameters.
    Config(String),
}

impl MotorError {
    /// The error's message (its display text): the configuration message itself.
    pub fn message(&self) -> (r: String)
        ensures
            r@ == match self {
                MotorError::Config(s) => s@,
            },
    {
        match self {
            MotorError::Config(s) => s.clone(),
        }
    }
}

/// Errors from winch mapping.
#[derive(Clone, Debug, PartialEq, Eq)]
pub enum WinchError {
    /// Invalid parameters.
    Config(String),
}

impl WinchError {
    /// The error's message (its display text): the configuration message itself.
    pub fn message(&self) -> (r: String)
        ensures
            r@ == match self {
                WinchError::Config(s) => s@,
            },
    {
        match self {
            WinchError::Config(s) => s.clone(),
        }
    }
}

/// Error from a cable length evaluation.
#[derive(Clone, Debug, PartialEq, Eq)]
pub enum CableModelError {
    /// Degenerate geometry (e.g. zero length).
    Geometry(String),
    /// Missing required context (e.g. tension for sag).
    Context(String),
    /// Numerical failure inside the model.
    Numeric(String),
}

impl CableModelError {
    /// The error's message (its display text): the carried message.
    pub fn message(&self) -> (r: String)
        ensures
            r@ == match self {
                CableModelError::Geometry(s) => s@,
                CableModelError::Context(s) => s@,
                CableModelError::Numeric(s) => s@,
            },
    {
        match self {
            CableModelError::Geometry(s) => s.clone(),
            CableModelError::Context(s) => s.clone(),
            CableModelError::Numeric(s) => s.clone(),
        }
    }
}

/// Structure assembly errors.
#[derive(Clone, Debug, PartialEq, Eq)]
pub enum StructureError {
    /// Bad inputs.
    Config(String),
}

impl StructureError {
    pub open spec fn message_spec(&self) -> Seq<char> {
        match self {
            StructureError::Config(s) => "invalid configuration: "@ + s@,
        }
    }

    /// The error's message (its display text).
    pub fn message(&self) -> (r: String)
        ensures
            r@ == self.message_spec(),
    {
        match self {
            StructureError::Config(s) => prefixed("invalid configuration: ", s),
        }
    }
}

/// Errors from tension solves.
#[derive(Clone, Debug, PartialEq, Eq)]
pub enum TensionError {
    /// No feasible tension in bounds.
    Infeasible,
    /// Singular / rank-deficient structure matrix.
    Singular,
    /// Configuration problem.
    Config(String),
    /// Wrapped structure error.
    Structure(StructureError),
}

impl TensionError {
    /// The error's message (its display text); a wrapped structure error shows its own message.
    pub fn message(&self) -> (r: String)
        ensures
            r@ == match self {
                TensionError::Infeasible => "wrench infeasible"@,
                TensionError::Singular => "singular structure matrix"@,
                TensionError::Config(s) => s@,
                TensionError::Structure(e) => e.message_spec(),
            },
    {
        match self {
            TensionError::Infeasible => String::from_str("wrench infeasible"),
            TensionError::Singular => String::from_str("singular structure matrix"),
            TensionError::Config(s) => s.clone(),
            TensionError::Structure(e) => e.message(),
        }
    }
}

/// Which forward-kinematics algorithm produced a solution.
#[derive(Clone, Copy, Debug, PartialEq, Eq, Structural)]
pub enum FkMethod {
    /// Numerical Gauss-Newton on point-mass position.
    NumericPointMass,
    /// Analytic trilateration (3 cables).
    Analytic3,
    /// Analytic / reduced path for rectangular 4-cable point-mass.
    AnalyticRect4,
    /// Numerical Gauss-Newton on platform pose (6 DOF).
    NumericPlatform6,
}

} // verus!
