//! Rewriting instructions by reflecting on how a program did: the settings of a search, and the
//! budget it runs under.
use vstd::prelude::*;
use crate::double::Double;
use crate::powers::{floor_log2, log2_of_power, power};

pub mod binding;
pub mod evaluating;
pub mod metric;
pub mod multimodal;
pub mod reflecting;
pub mod reflective;
pub mod reported;

verus! {

/// The settings of a search.
#[derive(Clone, Copy, Debug, PartialEq, Eq, Structural)]
pub struct GEPA {
    /// How many metric calls may be spent.
    pub max_metric_calls: usize,
    pub reflection_minibatch_size: usize,
    /// The score a candidate must reach to count as perfect.
    pub perfect_score: Double,
    /// Whether an example already scoring perfectly is left alone.
    pub skip_perfect_score: bool,
    /// What a run that failed scores.
    pub failure_score: Double,
    pub seed: u64,
    /// Whether two candidates that improved different predictors are combined.
    pub use_merge: bool,
    pub max_merge_invocations: usize,
    /// How many rows one evaluation runs at once.
    pub num_threads: usize,
    /// Whether a call that did not parse may be reflected on.
    pub add_format_failure_as_feedback: bool,
    /// Whether an evaluation keeps what each row was answered.
    pub track_best_outputs: bool,
}

/// The settings a search starts from: no budget yet, three rows a minibatch, a perfect score of
/// one, five merges, one row at a time.
pub open spec fn default_gepa() -> GEPA {
    GEPA {
        max_metric_calls: 0,
        reflection_minibatch_size: 3,
        perfect_score: Double { bits: 0x3ff0_0000_0000_0000 },
        skip_perfect_score: true,
        failure_score: Double { bits: 0 },
        seed: 0,
        use_merge: true,
        max_merge_invocations: 5,
        num_threads: 1,
        add_format_failure_as_feedback: false,
        track_best_outputs: false,
    }
}

/// How many trials a search of that many candidates over that many predictors makes: four trials
/// a predictor for each doubling, or one and a half a candidate where that is more, rounded down.
pub open spec fn trials(num_preds: nat, num_candidates: nat) -> nat {
    if num_candidates == 0 {
        0
    } else {
        let searched = floor_log2(power(num_candidates, 4 * num_preds));
        let by_candidates = num_candidates + num_candidates / 2;
        if searched >= by_candidates {
            searched
        } else {
            by_candidates
        }
    }
}

/// What a search is expected to spend: one pass over the valset, five calls a candidate, a
/// minibatch a trial, and a pass over the valset every `full_eval_steps` trials.
pub open spec fn budget(
    num_preds: nat,
    num_candidates: nat,
    valset_size: nat,
    minibatch_size: nat,
    full_eval_steps: nat,
) -> nat {
    let trials = trials(num_preds, num_candidates);
    let total = valset_size + 5 * num_candidates + trials * minibatch_size;
    if trials == 0 {
        total
    } else {
        let periodic = (trials + 1) / full_eval_steps + 1;
        let closing: nat = if trials < full_eval_steps {
            1
        } else {
            0
        };
        total + (periodic + closing) * valset_size
    }
}

impl GEPA {
    /// The settings a search starts from. The budget is left to be set.
    pub fn new() -> (r: GEPA)
        ensures
            r == default_gepa(),
    {
        GEPA {
            max_metric_calls: 0,
            reflection_minibatch_size: 3,
            perfect_score: Double::one(),
            skip_perfect_score: true,
            failure_score: Double::zero(),
            seed: 0,
            use_merge: true,
            max_merge_invocations: 5,
            num_threads: 1,
            add_format_failure_as_feedback: false,
            track_best_outputs: false,
        }
    }

    /// How many rows one evaluation runs at once, at least one.
    pub fn num_threads(self, num_threads: usize) -> (r: GEPA)
        ensures
            r == (GEPA {
                num_threads: if num_threads == 0 {
                    1
                } else {
                    num_threads
                },
                ..self
            }),
    {
        GEPA {
            num_threads: if num_threads == 0 {
                1
            } else {
                num_threads
            },
            ..self
        }
    }

    /// How many metric calls may be spent.
    pub fn max_metric_calls(self, max_metric_calls: usize) -> (r: GEPA)
        ensures
            r == (GEPA { max_metric_calls, ..self }),
    {
        GEPA { max_metric_calls, ..self }
    }

    /// How many rows a reflection is evaluated on.
    pub fn reflection_minibatch_size(self, reflection_minibatch_size: usize) -> (r: GEPA)
        ensures
            r == (GEPA { reflection_minibatch_size, ..self }),
    {
        GEPA { reflection_minibatch_size, ..self }
    }

    /// The score a candidate must reach to count as perfect.
    pub fn perfect_score(self, perfect_score: Double) -> (r: GEPA)
        ensures
            r == (GEPA { perfect_score, ..self }),
    {
        GEPA { perfect_score, ..self }
    }

    /// Whether an example already scoring perfectly is left alone.
    pub fn skip_perfect_score(self, skip_perfect_score: bool) -> (r: GEPA)
        ensures
            r == (GEPA { skip_perfect_score, ..self }),
    {
        GEPA { skip_perfect_score, ..self }
    }

    /// What a run that failed scores.
    pub fn failure_score(self, failure_score: Double) -> (r: GEPA)
        ensures
            r == (GEPA { failure_score, ..self }),
    {
        GEPA { failure_score, ..self }
    }

    /// Whether two candidates that improved different predictors are combined.
    pub fn use_merge(self, use_merge: bool) -> (r: GEPA)
        ensures
            r == (GEPA { use_merge, ..self }),
    {
        GEPA { use_merge, ..self }
    }

    /// How many merges a search may make.
    pub fn max_merge_invocations(self, max_merge_invocations: usize) -> (r: GEPA)
        ensures
            r == (GEPA { max_merge_invocations, ..self }),
    {
        GEPA { max_merge_invocations, ..self }
    }

    /// The seed of the search's draws.
    pub fn seed(self, seed: u64) -> (r: GEPA)
        ensures
            r == (GEPA { seed, ..self }),
    {
        GEPA { seed, ..self }
    }

    /// Whether a call that did not parse may be reflected on.
    pub fn add_format_failure_as_feedback(self, add_format_failure_as_feedback: bool) -> (r: GEPA)
        ensures
            r == (GEPA { add_format_failure_as_feedback, ..self }),
    {
        GEPA { add_format_failure_as_feedback, ..self }
    }

    /// Whether an evaluation keeps what each row was answered.
    pub fn track_best_outputs(self, track_best_outputs: bool) -> (r: GEPA)
        ensures
            r == (GEPA { track_best_outputs, ..self }),
    {
        GEPA { track_best_outputs, ..self }
    }

    /// Why a compile is refused: there is no teacher to learn from.
    pub fn refusal(&self, teacher: bool) -> (r: Option<String>)
        ensures
            r.deep_view() == if teacher {
                Some("GEPA optimizes instructions from a metric and has no teacher to learn from"@)
            } else {
                None
            },
    {
        if teacher {
            Some(
                "GEPA optimizes instructions from a metric and has no teacher to learn from".to_owned(),
            )
        } else {
            None
        }
    }

    /// Whether a budget was set, without which a search would not stop.
    pub fn has_budget(&self) -> (r: bool)
        ensures
            r == (self.max_metric_calls > 0),
    {
        self.max_metric_calls > 0
    }

    /// A budget worked out from the shape of the run.
    pub fn auto_budget(
        num_preds: usize,
        num_candidates: usize,
        valset_size: usize,
        minibatch_size: usize,
        full_eval_steps: usize,
    ) -> (r: Result<usize, String>)
        requires
            full_eval_steps > 0 ==> 4 * num_preds <= usize::MAX / 64 - 1,
            full_eval_steps > 0 ==> budget(
                num_preds as nat,
                num_candidates as nat,
                valset_size as nat,
                minibatch_size as nat,
                full_eval_steps as nat,
            ) <= usize::MAX,
            full_eval_steps > 0 ==> trials(num_preds as nat, num_candidates as nat) + 3 <= usize::MAX,
        ensures
            match r {
                Ok(calls) => full_eval_steps > 0 && calls == budget(
                    num_preds as nat,
                    num_candidates as nat,
                    valset_size as nat,
                    minibatch_size as nat,
                    full_eval_steps as nat,
                ),
                Err(message) => full_eval_steps == 0 && message@
                    == "full_eval_steps must be >= 1."@,
            },
    {
        if full_eval_steps < 1 {
            return Err("full_eval_steps must be >= 1.".to_owned());
        }
        let trials: usize = if num_candidates == 0 {
            0
        } else {
            let searched: usize = log2_of_power(num_candidates as u64, 4 * num_preds);
            let by_candidates: usize = num_candidates + num_candidates / 2;
            if searched >= by_candidates {
                searched
            } else {
                by_candidates
            }
        };
        let ghost periodic = (trials as nat + 1) / (full_eval_steps as nat) + 1;
        let ghost closing: nat = if trials < full_eval_steps {
            1
        } else {
            0
        };
        let ghost passes = (periodic + closing) * valset_size as nat;
        proof {
            assert(trials as nat * minibatch_size as nat >= 0) by (nonlinear_arith);
            assert(passes >= valset_size as nat) by (nonlinear_arith)
                requires
                    passes == (periodic + closing) * valset_size as nat,
                    periodic >= 1,
            ;
        }
        let total: usize = valset_size + 5 * num_candidates + trials * minibatch_size;
        if trials == 0 {
            return Ok(total);
        }
        proof {
            assert((trials + 1) / full_eval_steps as int <= trials + 1) by (nonlinear_arith)
                requires
                    full_eval_steps >= 1,
            ;
        }
        let rounds: usize = (trials + 1) / full_eval_steps + 1;
        let extra: usize = if trials < full_eval_steps {
            1
        } else {
            0
        };
        Ok(total + (rounds + extra) * valset_size)
    }
}

/// A search makes the larger of two numbers of trials: the largest `t` for which `2^t` is at most
/// the number of candidates raised to four times the predictors, and one and a half times the
/// candidates, rounded down.
pub proof fn law_trials_grow_with_predictors_and_candidates(num_preds: nat, num_candidates: nat)
    requires
        num_candidates > 0,
    ensures
        trials(num_preds, 0) == 0,
        2 * trials(num_preds, num_candidates) + 1 >= 3 * num_candidates,
        power(num_candidates, 4 * num_preds) < power(2, trials(num_preds, num_candidates) + 1),
        power(2, trials(num_preds, num_candidates)) <= power(num_candidates, 4 * num_preds) || 2
            * trials(num_preds, num_candidates) <= 3 * num_candidates,
{
    let v = power(num_candidates, 4 * num_preds);
    crate::powers::lemma_power_positive(num_candidates, 4 * num_preds);
    crate::powers::law_the_logarithm_is_the_largest_exponent(v);
    let searched = floor_log2(v);
    crate::powers::lemma_power_of_two_grows(
        searched + 1,
        trials(num_preds, num_candidates) + 1,
    );
}

/// What a search is expected to spend: nothing but five calls a candidate without rows to score;
/// for every row of a minibatch one call a trial; and for every row of the validation set one call
/// to begin with, and with any trials one for each full pass.
pub proof fn law_the_budget_counts_every_pass(
    num_preds: nat,
    num_candidates: nat,
    valset_size: nat,
    minibatch_size: nat,
    full_eval_steps: nat,
)
    requires
        full_eval_steps > 0,
    ensures
        ({
            let t = trials(num_preds, num_candidates);
            let here = budget(
                num_preds,
                num_candidates,
                valset_size,
                minibatch_size,
                full_eval_steps,
            );
            let passes = if t == 0 {
                0int
            } else {
                (t + 1) as int / (full_eval_steps as int) + 1 + if t < full_eval_steps {
                    1int
                } else {
                    0int
                }
            };
            &&& budget(num_preds, num_candidates, 0, 0, full_eval_steps) == 5 * num_candidates
            &&& budget(
                num_preds,
                num_candidates,
                valset_size,
                minibatch_size + 1,
                full_eval_steps,
            ) == here + t
            &&& budget(
                num_preds,
                num_candidates,
                valset_size + 1,
                minibatch_size,
                full_eval_steps,
            ) == here + 1 + passes
        }),
{
    let t = trials(num_preds, num_candidates) as int;
    let m = minibatch_size as int;
    let v = valset_size as int;
    let passes = (t + 1) / (full_eval_steps as int) + 1 + if t < full_eval_steps {
        1int
    } else {
        0int
    };
    assert(t * (m + 1) == t * m + t) by (nonlinear_arith);
    assert(passes * (v + 1) == passes * v + passes) by (nonlinear_arith);
    assert(t * 0 == 0 && passes * 0 == 0) by (nonlinear_arith);
}

} // verus!
