//! The submission session: each pipeline run is tagged with a
//! monotonically increasing generation number, and only the result
//! whose generation matches the latest request is applied. A result of
//! a stale run is discarded instead of overwriting a newer run's
//! result.

use vstd::prelude::*;
use crate::pipeline::PipelineError;

verus! {

/// The explicit state behind the submission boundary: the latest
/// request's generation and the applied outcome. `outcome` is `None`
/// while no run's result has been applied yet — distinct from every
/// applied failure.
pub struct RunSession {
    pub latest_gen: u64,
    pub outcome: Option<Result<(String, String), PipelineError>>,
}

impl RunSession {
    /// A fresh session: no request made, no outcome applied.
    pub fn new() -> (s: RunSession)
        ensures
            s.latest_gen == 0,
            s.outcome is None,
    {
        RunSession { latest_gen: 0, outcome: None }
    }

    /// Register a new submission: the generation increases strictly, so
    /// every earlier run becomes stale; the applied outcome is kept
    /// until the new run's result arrives.
    pub fn begin_request(&mut self) -> (g: u64)
        requires
            old(self).latest_gen < u64::MAX,
        ensures
            final(self).latest_gen == old(self).latest_gen + 1,
            g == final(self).latest_gen,
            final(self).outcome == old(self).outcome,
    {
        self.latest_gen = self.latest_gen + 1;
        self.latest_gen
    }

    /// Hand a finished run's result back: it is applied exactly when
    /// its generation is still the latest; a stale result changes
    /// nothing.
    pub fn apply_result(&mut self, g: u64, result: Result<(String, String), PipelineError>) -> (applied: bool)
        ensures
            applied <==> g == old(self).latest_gen,
            applied ==> final(self).latest_gen == old(self).latest_gen
                && final(self).outcome == Some(result),
            !applied ==> *final(self) == *old(self),
    {
        if g == self.latest_gen {
            self.outcome = Some(result);
            true
        } else {
            false
        }
    }
}

} // verus!
