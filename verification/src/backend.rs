//! The motor backend interface and the in-memory mock backend.
//!
//! Step counters are `i64` and advance with wrapping addition. Step delays are
//! handed over in whole microseconds.

use vstd::prelude::*;

use crate::errors::RuntimeError;

verus! {

/// `counters` advanced element-wise (wrapping) by `steps`.
pub open spec fn advanced(counters: Seq<i64>, steps: Seq<i64>) -> Seq<i64> {
    Seq::new(counters.len(), |i: int| counters[i].wrapping_add(steps[i]))
}

/// `n` zero counters.
pub open spec fn zeros(n: nat) -> Seq<i64> {
    Seq::new(n, |i: int| 0i64)
}

/// Low-level motor interface.
pub trait MotorBackend {
    /// Host-side cumulative step counters, one per axis.
    spec fn counters(&self) -> Seq<i64>;

    /// Number of axes.
    fn axis_count(&self) -> (n: usize)
        ensures
            n == self.counters().len(),
    ;

    /// Simultaneous step move; `delays_us[i]` is the step period of axis `i`.
    /// On success every counter advances by its step count.
    fn move_steps(&mut self, steps: &[i64], delays_us: &[u64]) -> (r: Result<(), RuntimeError>)
        ensures
            final(self).counters().len() == old(self).counters().len(),
            r is Ok ==> steps@.len() == old(self).counters().len() && final(self).counters()
                == advanced(old(self).counters(), steps@),
    ;

    /// Bookkeeping positions (host-side cumulative steps).
    fn positions(&self) -> (p: &[i64])
        ensures
            p@ == self.counters(),
    ;

    /// Optional hardware feedback positions (steps). Default: the bookkeeping
    /// positions, which it leaves as they are.
    fn read_feedback_steps(&mut self) -> (r: Result<Vec<i64>, RuntimeError>)
        ensures
            final(self).counters().len() == old(self).counters().len(),
        default_ensures
            r matches Ok(v) && v@ == old(self).counters(),
            final(self).counters() == old(self).counters(),
    {
        Ok(vstd::slice::slice_to_vec(self.positions()))
    }

    /// Optional e-stop / disable drivers. Default: no-op that succeeds.
    fn estop(&mut self) -> (r: Result<(), RuntimeError>)
        ensures
            final(self).counters().len() == old(self).counters().len(),
        default_ensures
            r is Ok,
            final(self).counters() == old(self).counters(),
    {
        Ok(())
    }

    /// Optional home/zero on hardware. Default: no-op that succeeds.
    fn home_hardware(&mut self) -> (r: Result<(), RuntimeError>)
        ensures
            final(self).counters().len() == old(self).counters().len(),
        default_ensures
            r is Ok,
            final(self).counters() == old(self).counters(),
    {
        Ok(())
    }
}

/// In-memory mock backend.
#[derive(Clone, Debug)]
pub struct MockBackend {
    /// Cumulative steps.
    pub steps: Vec<i64>,
    /// Command log.
    pub log: Vec<Vec<i64>>,
    /// Simulated feedback (= steps unless injected error).
    pub feedback: Vec<i64>,
    /// Whether estop was called.
    pub estopped: bool,
}

impl MockBackend {
    /// Create mock with `n` axes.
    pub fn new(n: usize) -> (b: Self)
        ensures
            b.steps@ == zeros(n as nat),
            b.feedback@ == zeros(n as nat),
            b.log@.len() == 0,
            !b.estopped,
    {
        MockBackend { steps: zero_vec(n), log: Vec::new(), feedback: zero_vec(n), estopped: false }
    }
}

/// A vector of `n` zeros.
pub fn zero_vec(n: usize) -> (v: Vec<i64>)
    ensures
        v@ == zeros(n as nat),
{
    let mut v: Vec<i64> = Vec::new();
    let mut i: usize = 0;
    while i < n
        invariant
            0 <= i <= n,
            v@ == zeros(i as nat),
        decreases n - i,
    {
        v.push(0);
        assert(v@ =~= zeros((i + 1) as nat));
        i = i + 1;
    }
    v
}

impl MotorBackend for MockBackend {
    open spec fn counters(&self) -> Seq<i64> {
        self.steps@
    }

    fn axis_count(&self) -> (n: usize) {
        self.steps.len()
    }

    fn move_steps(&mut self, steps: &[i64], delays_us: &[u64]) -> (r: Result<(), RuntimeError>)
        ensures
            steps@.len() != old(self).steps@.len() ==> (r matches Err(RuntimeError::Config(m)) && m@
                == "step vector length mismatch"@) && final(self).steps@ == old(self).steps@
                && final(self).log@ == old(self).log@,
            steps@.len() == old(self).steps@.len() ==> r is Ok && final(self).log@.len() == old(
                self,
            ).log@.len() + 1 && final(self).log@.last()@ == steps@ && final(self).log@.drop_last()
                == old(self).log@,
            steps@.len() == old(self).steps@.len() ==> final(self).feedback@ == Seq::new(
                old(self).feedback@.len(),
                |i: int|
                    if i < steps@.len() {
                        old(self).steps@[i].wrapping_add(steps@[i])
                    } else {
                        old(self).feedback@[i]
                    },
            ),
            steps@.len() != old(self).steps@.len() ==> final(self).feedback@ == old(self).feedback@,
            final(self).estopped == old(self).estopped,
    {
        if steps.len() != self.steps.len() {
            proof {
                reveal_strlit("step vector length mismatch");
            }
            return Err(RuntimeError::Config(String::from_str("step vector length mismatch")));
        }
        let n = steps.len();
        let mut i: usize = 0;
        while i < n
            invariant
                0 <= i <= n,
                n == steps@.len(),
                self.steps@.len() == n,
                self.feedback@.len() == old(self).feedback@.len(),
                forall|k: int|
                    0 <= k < self.feedback@.len() ==> #[trigger] self.feedback@[k] == if k < i && k < n {
                        old(self).steps@[k].wrapping_add(steps@[k])
                    } else {
                        old(self).feedback@[k]
                    },
                self.log@ == old(self).log@,
                self.estopped == old(self).estopped,
                forall|k: int|
                    0 <= k < n ==> #[trigger] self.steps@[k] == if k < i {
                        old(self).steps@[k].wrapping_add(steps@[k])
                    } else {
                        old(self).steps@[k]
                    },
            decreases n - i,
        {
            let v = self.steps[i].wrapping_add(steps[i]);
            self.steps.set(i, v);
            if i < self.feedback.len() {
                self.feedback.set(i, v);
            }
            i = i + 1;
        }
        assert(self.steps@ =~= advanced(old(self).steps@, steps@));
        assert(self.feedback@ =~= Seq::new(
            old(self).feedback@.len(),
            |i: int|
                if i < steps@.len() {
                    old(self).steps@[i].wrapping_add(steps@[i])
                } else {
                    old(self).feedback@[i]
                },
        ));
        let ghost log_before = self.log@;
        self.log.push(vstd::slice::slice_to_vec(steps));
        assert(self.log@.drop_last() =~= log_before);
        Ok(())
    }

    fn positions(&self) -> (p: &[i64]) {
        self.steps.as_slice()
    }

    fn read_feedback_steps(&mut self) -> (r: Result<Vec<i64>, RuntimeError>)
        ensures
            r matches Ok(v) && v@ == old(self).feedback@,
            final(self).steps@ == old(self).steps@,
    {
        Ok(self.feedback.clone())
    }

    fn estop(&mut self) -> (r: Result<(), RuntimeError>)
        ensures
            r is Ok,
            final(self).estopped,
            final(self).steps@ == old(self).steps@,
    {
        self.estopped = true;
        Ok(())
    }

    fn home_hardware(&mut self) -> (r: Result<(), RuntimeError>)
        ensures
            r is Ok,
            final(self).steps@ == zeros(old(self).steps@.len()),
            final(self).feedback@ == zeros(old(self).feedback@.len()),
            final(self).estopped == old(self).estopped,
    {
        let n = self.steps.len();
        self.steps = zero_vec(n);
        let m = self.feedback.len();
        self.feedback = zero_vec(m);
        Ok(())
    }
}

} // verus!

verus! {

impl<T: MotorBackend + ?Sized> MotorBackend for Box<T> {
    open spec fn counters(&self) -> Seq<i64> {
        (**self).counters()
    }

    fn axis_count(&self) -> (n: usize) {
        (**self).axis_count()
    }

    fn move_steps(&mut self, steps: &[i64], delays_us: &[u64]) -> (r: Result<(), RuntimeError>) {
        (**self).move_steps(steps, delays_us)
    }

    fn positions(&self) -> (p: &[i64]) {
        (**self).positions()
    }

    fn read_feedback_steps(&mut self) -> (r: Result<Vec<i64>, RuntimeError>) {
        (**self).read_feedback_steps()
    }

    fn estop(&mut self) -> (r: Result<(), RuntimeError>) {
        (**self).estop()
    }

    fn home_hardware(&mut self) -> (r: Result<(), RuntimeError>) {
        (**self).home_hardware()
    }
}


/// A move adds each axis's step count to its counter: where the sum fits in
/// an `i64` the new counter is that sum, and a move of no steps changes
/// nothing.
pub proof fn lemma_advanced_adds(counters: Seq<i64>, steps: Seq<i64>)
    requires
        counters.len() == steps.len(),
    ensures
        advanced(counters, steps).len() == counters.len(),
        forall|i: int|
            0 <= i < counters.len() && i64::MIN <= counters[i] + steps[i] <= i64::MAX ==> #[trigger] advanced(
                counters,
                steps,
            )[i] == counters[i] + steps[i],
        (forall|i: int| 0 <= i < steps.len() ==> steps[i] == 0) ==> advanced(counters, steps) == counters,
{
    assert forall|i: int|
        0 <= i < counters.len() && i64::MIN <= counters[i] + steps[i] <= i64::MAX implies #[trigger] advanced(
            counters,
            steps,
        )[i] == counters[i] + steps[i] by {
        assert(counters[i].wrapping_add(steps[i]) == counters[i] + steps[i]);
    }
    if forall|i: int| 0 <= i < steps.len() ==> steps[i] == 0 {
        assert(advanced(counters, steps) =~= counters);
    }
}

} // verus!
