use std::time::Duration;
use vstd::prelude::*;

verus! {

/// The outcome of one optimisation run.
#[derive(Debug, Clone)]
pub struct Report {
    /// The best fitness found.
    pub best_fitness: i64,
    /// The position at which it was found.
    pub best_position: Vec<i64>,
    /// The best fitness seen so far, recorded once per iteration.
    pub convergence_curve: Vec<i64>,
    /// The number of iterations run.
    pub iters: usize,
    /// The number of decoder evaluations made.
    pub evals: usize,
    /// The time the run took, where it was measured.
    pub duration: Option<Duration>,
}

impl Report {
    /// The report of a run that has not started: nothing recorded, and a
    /// best fitness that every fitness matches or improves on under
    /// minimisation.
    #[must_use]
    pub fn empty() -> (r: Report)
        ensures
            r.best_fitness == i64::MAX,
            r.best_position@ == Seq::<i64>::empty(),
            r.convergence_curve@ == Seq::<i64>::empty(),
            r.iters == 0,
            r.evals == 0,
            r.duration is None,
    {
        Report {
            best_fitness: i64::MAX,
            best_position: Vec::new(),
            convergence_curve: Vec::new(),
            iters: 0,
            evals: 0,
            duration: None,
        }
    }

    /// The most recent entry of the convergence curve, if there is one.
    #[inline]
    #[must_use]
    pub fn last(&self) -> (l: Option<i64>)
        ensures
            self.convergence_curve@.len() == 0 ==> l is None,
            self.convergence_curve@.len() > 0 ==> l == Some(self.convergence_curve@.last()),
    {
        let n: usize = self.convergence_curve.len();
        if n == 0 {
            None
        } else {
            Some(self.convergence_curve[n - 1])
        }
    }

    /// The same report with the elapsed time set to `d`.
    #[inline]
    #[must_use]
    pub fn with_duration(self, d: Duration) -> (r: Report)
        ensures
            r.duration == Some(d),
            r.best_fitness == self.best_fitness,
            r.best_position == self.best_position,
            r.convergence_curve == self.convergence_curve,
            r.iters == self.iters,
            r.evals == self.evals,
    {
        let mut r = self;
        r.duration = Some(d);
        r
    }
}

} // verus!
