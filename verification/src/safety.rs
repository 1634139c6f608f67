//! The integer half of the motion safety policy: the e-stop latch and the
//! per-move step burst limit. (The workspace box, speed and cable length
//! limits are real-valued and checked beside it.)

use vstd::prelude::*;

use crate::errors::RuntimeError;
use crate::text::{decimal, has_infix, push_decimal, push_signed_decimal, push_str, signed_decimal, str_contains, string_of};

verus! {

/// The e-stop latch and the largest step magnitude one move may command.
#[derive(Clone, Debug)]
pub struct StepGuard {
    /// Max |steps| commanded in a single backend move.
    pub max_steps_per_move: i64,
    /// If true, motion is blocked until cleared.
    pub estop: bool,
}

/// The text of a step burst violation.
pub open spec fn step_burst_text(steps: int, max: int) -> Seq<char> {
    "steps "@ + decimal(steps as nat) + " exceed max_steps_per_move "@ + signed_decimal(max)
}

/// Index of the first step whose magnitude exceeds `max` (`steps.len()` if none).
pub open spec fn first_burst(steps: Seq<i64>, max: i64) -> nat
    decreases steps.len(),
{
    if steps.len() == 0 {
        0
    } else if abs_steps(steps[0]) > max {
        0
    } else {
        1 + first_burst(steps.drop_first(), max)
    }
}

/// The magnitude of a step count.
pub open spec fn abs_steps(s: i64) -> int {
    if s < 0 {
        -s
    } else {
        s as int
    }
}

proof fn lemma_first_burst(steps: Seq<i64>, max: i64, r: int)
    requires
        0 <= r <= steps.len(),
        forall|j: int| 0 <= j < r ==> abs_steps(#[trigger] steps[j]) <= max,
        r < steps.len() ==> abs_steps(steps[r]) > max,
    ensures
        first_burst(steps, max) == r,
    decreases r,
{
    if r > 0 {
        lemma_first_burst(steps.drop_first(), max, r - 1);
    }
}

impl StepGuard {
    /// The default policy: at most 50000 steps per move, e-stop clear.
    pub fn new() -> (g: Self)
        ensures
            g.max_steps_per_move == 50_000,
            !g.estop,
    {
        StepGuard { max_steps_per_move: 50_000, estop: false }
    }

    /// Latch e-stop.
    pub fn trip_estop(&mut self)
        ensures
            final(self).estop,
            final(self).max_steps_per_move == old(self).max_steps_per_move,
    {
        self.estop = true;
    }

    /// Clear e-stop (operator acknowledge).
    pub fn clear_estop(&mut self)
        ensures
            !final(self).estop,
            final(self).max_steps_per_move == old(self).max_steps_per_move,
    {
        self.estop = false;
    }

    /// Ensure e-stop is not latched: fails with the safety error
    /// `e-stop active` exactly when it is.
    pub fn check_estop(&self) -> (r: Result<(), RuntimeError>)
        ensures
            self.estop ==> (r matches Err(RuntimeError::Safety(m)) && m@ == "e-stop active"@),
            !self.estop ==> r is Ok,
    {
        if self.estop {
            Err(RuntimeError::Safety("e-stop active".to_owned()))
        } else {
            Ok(())
        }
    }

    /// Per-move step magnitude guard: the e-stop check, then the first step
    /// whose magnitude exceeds the limit is refused with its magnitude.
    pub fn check_steps(&self, steps: &[i64]) -> (r: Result<(), RuntimeError>)
        requires
            !self.estop && first_burst(steps@, self.max_steps_per_move) < steps@.len() ==> steps@[first_burst(
                steps@,
                self.max_steps_per_move,
            ) as int] != i64::MIN,
        ensures
            self.estop ==> (r matches Err(RuntimeError::Safety(m)) && m@ == "e-stop active"@),
            !self.estop && first_burst(steps@, self.max_steps_per_move) == steps@.len() ==> r is Ok,
            !self.estop && first_burst(steps@, self.max_steps_per_move) < steps@.len() ==> (r matches Err(
                RuntimeError::Safety(m),
            ) && m@ == step_burst_text(
                abs_steps(steps@[first_burst(steps@, self.max_steps_per_move) as int]),
                self.max_steps_per_move as int,
            )),
    {
        if self.estop {
            return Err(RuntimeError::Safety("e-stop active".to_owned()));
        }
        let mut i: usize = 0;
        while i < steps.len()
            invariant
                0 <= i <= steps.len(),
                !self.estop,
                first_burst(steps@, self.max_steps_per_move) < steps@.len() ==> steps@[first_burst(
                    steps@,
                    self.max_steps_per_move,
                ) as int] != i64::MIN,
                forall|j: int| 0 <= j < i ==> abs_steps(#[trigger] steps@[j]) <= self.max_steps_per_move,
            decreases steps.len() - i,
        {
            let s = steps[i];
            proof {
                // A step of `i64::MIN` would be the first burst, which the
                // precondition rules out.
                if s == i64::MIN {
                    lemma_first_burst(steps@, self.max_steps_per_move, i as int);
                }
            }
            let a: i64 = if s < 0 {
                -s
            } else {
                s
            };
            if a > self.max_steps_per_move {
                proof {
                    lemma_first_burst(steps@, self.max_steps_per_move, i as int);
                }
                let mut m: Vec<char> = Vec::new();
                push_str(&mut m, "steps ");
                push_decimal(&mut m, a as u64);
                push_str(&mut m, " exceed max_steps_per_move ");
                push_signed_decimal(&mut m, self.max_steps_per_move);
                return Err(RuntimeError::Safety(string_of(&m)));
            }
            i = i + 1;
        }
        proof {
            lemma_first_burst(steps@, self.max_steps_per_move, steps@.len() as int);
        }
        Ok(())
    }
}


/// The message of an e-stop refusal: a safety error whose message mentions
/// `e-stop`. A playback session that meets one latches its own e-stop.
pub fn estop_message(e: &RuntimeError) -> (r: Option<String>)
    ensures
        match e {
            RuntimeError::Safety(s) => if has_infix(s@, "e-stop"@) {
                r matches Some(t) && t@ == s@
            } else {
                r is None
            },
            _ => r is None,
        },
{
    match e {
        RuntimeError::Safety(s) => {
            if str_contains(s.as_str(), "e-stop") {
                Some(s.clone())
            } else {
                None
            }
        },
        _ => None,
    }
}

} // verus!
