use vstd::prelude::*;

verus! {

/// Why the optimizer stopped.
#[derive(Clone, Copy, Debug, PartialEq, Eq)]
pub enum StopReason {
    /// The objective changed by less than the tolerance.
    Converged,
    /// The objective rose.
    Increasing,
    /// The iteration cap was reached.
    IterationLimit,
}

/// What the optimizer does after an iteration: stop (and why) or go on,
/// whether the new objective becomes the current one, and whether the
/// objective is printed for this iteration.
#[derive(Clone, Copy, Debug, PartialEq, Eq)]
pub struct Decision {
    pub stop: Option<StopReason>,
    pub accept: bool,
    pub report: bool,
}

/// Decides what follows iteration `iter` (counted from 0) of at most
/// `max_iters`, given how the new objective compares with the previous
/// one: whether |f_new - f_prev| < tolerance, and whether f_new > f_prev.
/// Convergence is checked before the increase, and the cap after both; the
/// new objective replaces the previous one only when neither stopped the
/// run.
/// In verbose mode the objective is printed when the run converges and on
/// every tenth iteration of a descending run; an increase is reported by
/// its stop reason instead.
pub fn after_iteration(
    iter: usize,
    max_iters: usize,
    change_below_tolerance: bool,
    increased: bool,
    verbose: bool,
) -> (d: Decision)
    requires
        iter < max_iters,
    ensures
        d.stop == if change_below_tolerance {
            Some(StopReason::Converged)
        } else if increased {
            Some(StopReason::Increasing)
        } else if iter + 1 == max_iters {
            Some(StopReason::IterationLimit)
        } else {
            None::<StopReason>
        },
        d.accept == (!change_below_tolerance && !increased),
        d.report == (verbose && (change_below_tolerance || (!increased && iter % 10 == 0))),
{
    if change_below_tolerance {
        Decision { stop: Some(StopReason::Converged), accept: false, report: verbose }
    } else if increased {
        Decision { stop: Some(StopReason::Increasing), accept: false, report: false }
    } else if iter + 1 == max_iters {
        Decision { stop: Some(StopReason::IterationLimit), accept: true, report: verbose && iter % 10 == 0 }
    } else {
        Decision { stop: None, accept: true, report: verbose && iter % 10 == 0 }
    }
}

} // verus!
