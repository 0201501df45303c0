//! What bounds a scoring pass.
use vstd::prelude::*;

verus! {

/// How many failed rows a pass tolerates where nothing else was said.
pub const DEFAULT_MAX_ERRORS: usize = 10;

/// One scoring pass, by what bounds it.
#[derive(Clone, Copy, Debug, PartialEq, Eq, Structural)]
pub struct Evaluate {
    /// Rows in flight at once.
    pub num_threads: usize,
    /// Failed rows the pass tolerates before giving up.
    pub max_errors: usize,
}

/// What an optimizer's scoring passes are bounded by.
#[derive(Clone, Copy, Debug, PartialEq, Eq, Structural)]
pub struct Scoring {
    /// Rows in flight per pass, or nothing to leave the pass's own number.
    pub num_threads: Option<usize>,
    /// Failed rows a pass tolerates before giving up.
    pub max_errors: usize,
}

/// One row at a time's own number, ten failures.
pub open spec fn default_scoring() -> Scoring {
    Scoring { num_threads: None, max_errors: DEFAULT_MAX_ERRORS }
}

impl Default for Scoring {
    fn default() -> (r: Self)
        ensures
            r == default_scoring(),
    {
        Scoring { num_threads: None, max_errors: DEFAULT_MAX_ERRORS }
    }
}

impl Scoring {
    /// These settings on one scoring pass.
    pub fn apply(self, evaluate: Evaluate) -> (r: Evaluate)
        ensures
            r.max_errors == self.max_errors,
            r.num_threads == match self.num_threads {
                Some(threads) => threads,
                None => evaluate.num_threads,
            },
    {
        let num_threads: usize = match self.num_threads {
            Some(threads) => threads,
            None => evaluate.num_threads,
        };
        Evaluate { num_threads, max_errors: self.max_errors }
    }
}

/// Where nothing was said a pass keeps its own number of threads and tolerates ten failed rows.
pub proof fn law_the_default_leaves_the_threads()
    ensures
        default_scoring().num_threads is None,
        default_scoring().max_errors == 10,
{
}

} // verus!
