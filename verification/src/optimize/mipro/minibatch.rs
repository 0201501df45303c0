//! Scoring a trial on a subsample, and the full evaluations that interrupt a run of them.
use vstd::prelude::*;
use crate::double::{is_nan, rank, Double};
use crate::duplicate::{append, Duplicate};
use crate::example::Example;
use crate::optimize::draw::{is_sample, least, pick, picked};

verus! {

/// The size of the scored set above which a preset scores trials on minibatches.
pub const MIN_MINIBATCH_SIZE: usize = 50;

/// A budget preset: a candidate count and a validation-set size.
#[derive(Clone, Copy, Debug, PartialEq, Eq, Structural)]
pub enum Auto {
    /// 6 candidates over 100 validation examples.
    Light,
    /// 12 candidates over 300.
    Medium,
    /// 18 candidates over 1000.
    Heavy,
}

impl Auto {
    pub open spec fn candidate_count(self) -> nat {
        match self {
            Auto::Light => 6,
            Auto::Medium => 12,
            Auto::Heavy => 18,
        }
    }

    pub open spec fn validation_size(self) -> nat {
        match self {
            Auto::Light => 100,
            Auto::Medium => 300,
            Auto::Heavy => 1000,
        }
    }

    /// How many few-shot sets are built.
    pub fn candidates(self) -> (r: usize)
        ensures
            r == self.candidate_count(),
    {
        match self {
            Auto::Light => 6,
            Auto::Medium => 12,
            Auto::Heavy => 18,
        }
    }

    /// What the validation set is subsampled to.
    pub fn val_size(self) -> (r: usize)
        ensures
            r == self.validation_size(),
    {
        match self {
            Auto::Light => 100,
            Auto::Medium => 300,
            Auto::Heavy => 1000,
        }
    }

    /// How many instructions are proposed: all of the budget where demos are not searched, and
    /// half of it, rounded down, where they are.
    pub fn instruction_candidates(self, zeroshot: bool) -> (r: usize)
        ensures
            r == if zeroshot {
                self.candidate_count()
            } else {
                self.candidate_count() / 2
            },
    {
        if zeroshot {
            self.candidates()
        } else {
            self.candidates() / 2
        }
    }
}

/// `batch_size` examples, or all of them where there are fewer, in the order they were drawn.
pub fn subsample(examples: &Vec<Example>, batch_size: usize, drawn: &Vec<usize>) -> (r: Vec<
    Example,
>)
    requires
        is_sample(drawn@, examples@.len(), least(batch_size as nat, examples@.len())),
    ensures
        r.deep_view() == picked(examples.deep_view(), drawn@),
        r@.len() == least(batch_size as nat, examples@.len()),
{
    let r = pick(examples, drawn);
    proof {
        assert(r.deep_view().len() == drawn@.len());
    }
    r
}

/// How many positions a batch has drawn for it. A batch that covers the set draws nothing, so how
/// far the generator advances turns on the size.
pub fn batch_draw(population: usize, batch_size: usize) -> (r: Option<usize>)
    ensures
        r == if batch_size >= population {
            None::<usize>
        } else {
            Some(batch_size)
        },
{
    if batch_size >= population {
        None
    } else {
        Some(batch_size)
    }
}

/// The examples one trial scores on: the whole set where the batch covers it, in its own order,
/// and otherwise the ones that were drawn.
pub fn batch(examples: &Vec<Example>, batch_size: usize, drawn: &Vec<usize>) -> (r: Vec<Example>)
    requires
        batch_size < examples@.len() ==> is_sample(drawn@, examples@.len(), batch_size as nat),
    ensures
        r.deep_view() == if batch_size >= examples@.len() {
            examples.deep_view()
        } else {
            picked(examples.deep_view(), drawn@)
        },
{
    if batch_size >= examples.len() {
        examples.duplicate()
    } else {
        subsample(examples, batch_size, drawn)
    }
}

/// The trial count a minibatch run displays: the trials, one full evaluation for every
/// `full_eval_steps` of them, one more, and one for a remainder.
pub open spec fn displayed_trials(num_trials: nat, full_eval_steps: nat) -> nat {
    num_trials + num_trials / full_eval_steps + 1 + if num_trials % full_eval_steps == 0 {
        0nat
    } else {
        1nat
    }
}

/// [`displayed_trials`], computed.
pub fn adjusted_trials(num_trials: usize, full_eval_steps: usize) -> (r: usize)
    requires
        full_eval_steps > 0,
        displayed_trials(num_trials as nat, full_eval_steps as nat) <= usize::MAX,
    ensures
        r == displayed_trials(num_trials as nat, full_eval_steps as nat),
{
    let trailing: usize = if num_trials % full_eval_steps == 0 {
        0
    } else {
        1
    };
    num_trials + num_trials / full_eval_steps + 1 + trailing
}

/// Whether trial `trial`, counted from one, is followed by a full evaluation.
pub open spec fn full_due(trial: nat, adjusted: nat, full_eval_steps: nat) -> bool {
    trial % (full_eval_steps + 1) == 0 || trial + 1 == adjusted
}

/// [`full_due`], decided.
pub fn full_evaluation_due(trial: usize, adjusted: usize, full_eval_steps: usize) -> (r: bool)
    requires
        full_eval_steps < usize::MAX,
        trial < usize::MAX,
    ensures
        r == full_due(trial as nat, adjusted as nat, full_eval_steps as nat),
{
    trial % (full_eval_steps + 1) == 0 || trial + 1 == adjusted
}

/// Full evaluations keep coming for as long as a run lasts: one is due at every trial whose number
/// is a multiple of `full_eval_steps + 1`, and at no other but the last but one that is displayed.
/// So of any `full_eval_steps + 1` trials in a row one is followed by a full evaluation.
pub proof fn law_full_evaluations_keep_their_interval(
    multiple: nat,
    from: nat,
    adjusted: nat,
    full_eval_steps: nat,
)
    ensures
        full_due(multiple * (full_eval_steps + 1), adjusted, full_eval_steps),
        exists|trial: nat|
            from <= trial <= from + full_eval_steps && #[trigger] full_due(
                trial,
                adjusted,
                full_eval_steps,
            ),
        forall|trial: nat| #[trigger]
            full_due(trial, adjusted, full_eval_steps) && trial + 1 != adjusted ==> exists|k: nat|
                trial == #[trigger] (k * (full_eval_steps + 1)),
        full_due((adjusted - 1) as nat, adjusted, full_eval_steps) || adjusted == 0,
{
    let every = (full_eval_steps + 1) as int;
    assert((multiple * every) % every == 0) by (nonlinear_arith)
        requires
            every > 0,
    ;
    let left = from as int % every;
    let trial = if left == 0 {
        from
    } else {
        (from + every - left) as nat
    };
    assert(0 <= left < every && trial as int % every == 0) by (nonlinear_arith)
        requires
            every > 0,
            left == from as int % every,
            trial == if left == 0 {
                from as int
            } else {
                from + every - left
            },
    ;
    assert(full_due(trial, adjusted, full_eval_steps));
    assert forall|trial: nat| #[trigger]
        full_due(trial, adjusted, full_eval_steps) && trial + 1 != adjusted implies exists|k: nat|
        trial == #[trigger] (k * (full_eval_steps + 1)) by {
        let k = (trial as int / every) as nat;
        assert(trial as int / every >= 0 && trial as int == (trial as int / every) * every)
            by (nonlinear_arith)
            requires
                every > 0,
                trial as int % every == 0,
                trial >= 0,
        ;
        assert(trial == k * (full_eval_steps + 1));
    }
}

/// A run of at most `full_eval_steps` trials has one full evaluation, after its last trial. The
/// program as it came is trial one, so the trials of the run are numbered from two.
pub proof fn law_a_short_run_evaluates_fully_at_its_end(
    num_trials: nat,
    full_eval_steps: nat,
    trial: nat,
)
    requires
        0 < num_trials <= full_eval_steps,
        2 <= trial <= num_trials + 1,
    ensures
        full_due(trial, displayed_trials(num_trials, full_eval_steps), full_eval_steps) <==> trial
            == num_trials + 1,
{
    let steps = full_eval_steps as int;
    if num_trials == full_eval_steps {
        assert(num_trials as int / steps == 1 && num_trials as int % steps == 0)
            by (nonlinear_arith)
            requires
                num_trials == steps,
                steps > 0,
        ;
    } else {
        assert(num_trials as int / steps == 0 && num_trials as int % steps == num_trials)
            by (nonlinear_arith)
            requires
                0 < num_trials < steps,
        ;
    }
    assert(trial as int % (steps + 1) == if trial == steps + 1 {
        0
    } else {
        trial as int
    }) by (nonlinear_arith)
        requires
            2 <= trial <= steps + 1,
    ;
}

/// Every score each parameter combination has earned, in the order the combinations were first
/// scored, and which combinations have already had a full pass.
#[derive(Debug)]
pub struct Averages {
    pub scored: Vec<(Vec<usize>, Vec<Double>)>,
    pub fully_evaluated: Vec<Vec<usize>>,
}

/// What an [`Averages`] holds.
#[verifier::ext_equal]
pub struct AveragesModel {
    pub scored: Seq<(Seq<usize>, Seq<Double>)>,
    pub fully_evaluated: Seq<Seq<usize>>,
}

impl DeepView for Averages {
    type V = AveragesModel;

    open spec fn deep_view(&self) -> AveragesModel {
        AveragesModel {
            scored: self.scored.deep_view(),
            fully_evaluated: self.fully_evaluated.deep_view(),
        }
    }
}

/// Where a combination stands among the scored ones, or their number where it does not.
pub open spec fn scored_at(scored: Seq<(Seq<usize>, Seq<Double>)>, params: Seq<usize>) -> int
    decreases scored.len(),
{
    if scored.len() == 0 || scored[0].0 == params {
        0
    } else {
        1 + scored_at(scored.skip(1), params)
    }
}

impl AveragesModel {
    /// One more score under a combination, which is a new entry where it has none yet.
    pub open spec fn recorded(self, params: Seq<usize>, score: Double) -> AveragesModel {
        let at = scored_at(self.scored, params);
        AveragesModel {
            scored: if at < self.scored.len() {
                self.scored.update(at, (params, self.scored[at].1.push(score)))
            } else {
                self.scored.push((params, seq![score]))
            },
            fully_evaluated: self.fully_evaluated,
        }
    }

    /// The combination noted as having had its full pass.
    pub open spec fn marked(self, params: Seq<usize>) -> AveragesModel {
        AveragesModel {
            scored: self.scored,
            fully_evaluated: if self.fully_evaluated.contains(params) {
                self.fully_evaluated
            } else {
                self.fully_evaluated.push(params)
            },
        }
    }

    /// Whether the combination at `i` has not had a full pass.
    pub open spec fn open_at(self, i: int) -> bool {
        !self.fully_evaluated.contains(self.scored[i].0)
    }

    /// Whether `i` is the entry a full evaluation takes up: of those without a full pass the one
    /// with the highest mean, the earliest where several share it. Where all have had theirs, the
    /// one with the lowest mean, and the latest of several.
    pub open spec fn is_pick(self, means: Seq<Double>, i: int) -> bool {
        &&& 0 <= i < self.scored.len()
        &&& if exists|j: int| 0 <= j < self.scored.len() && self.open_at(j) {
            &&& self.open_at(i)
            &&& forall|j: int|
                0 <= j < self.scored.len() && #[trigger] self.open_at(j) ==> rank(means[i]) > rank(
                    means[j],
                ) || (rank(means[i]) == rank(means[j]) && i <= j)
        } else {
            forall|j: int|
                0 <= j < self.scored.len() ==> rank(means[i]) < rank(#[trigger] means[j]) || (rank(
                    means[i],
                ) == rank(means[j]) && i >= j)
        }
    }
}

proof fn lemma_scored_at(scored: Seq<(Seq<usize>, Seq<Double>)>, params: Seq<usize>, at: int)
    requires
        0 <= at <= scored.len(),
        at < scored.len() ==> scored[at].0 == params,
        forall|j: int| 0 <= j < at ==> (#[trigger] scored[j]).0 != params,
    ensures
        scored_at(scored, params) == at,
    decreases scored.len(),
{
    if at > 0 {
        assert(scored[0].0 != params);
        let rest = scored.skip(1);
        assert forall|j: int| 0 <= j < at - 1 implies (#[trigger] rest[j]).0 != params by {
            assert(rest[j] == scored[j + 1]);
        }
        lemma_scored_at(rest, params, at - 1);
    }
}

proof fn lemma_scored_at_bounds(scored: Seq<(Seq<usize>, Seq<Double>)>, params: Seq<usize>)
    ensures
        0 <= scored_at(scored, params) <= scored.len(),
    decreases scored.len(),
{
    if scored.len() > 0 && scored[0].0 != params {
        lemma_scored_at_bounds(scored.skip(1), params);
    }
}

/// A recorded score leaves something to pick from.
pub proof fn lemma_recorded_is_not_empty(
    averages: AveragesModel,
    params: Seq<usize>,
    score: Double,
)
    ensures
        averages.recorded(params, score).scored.len() > 0,
{
    lemma_scored_at_bounds(averages.scored, params);
}

/// Whether two combinations choose the same everywhere.
pub fn same_params(a: &Vec<usize>, b: &Vec<usize>) -> (r: bool)
    ensures
        r == (a@ == b@),
{
    if a.len() != b.len() {
        return false;
    }
    let mut i: usize = 0;
    while i < a.len()
        invariant
            i <= a@.len(),
            a@.len() == b@.len(),
            forall|j: int| 0 <= j < i ==> a@[j] == b@[j],
        decreases a@.len() - i,
    {
        if a[i] != b[i] {
            return false;
        }
        i = i + 1;
    }
    proof {
        assert(a@ =~= b@);
    }
    true
}

/// The contents of a list of plain positions are the positions themselves.
pub proof fn lemma_params_view(params: Vec<usize>)
    ensures
        params.deep_view() == params@,
{
    assert(params.deep_view() =~= params@);
}

impl Default for Averages {
    fn default() -> (r: Self)
        ensures
            r.deep_view() == (AveragesModel {
                scored: Seq::empty(),
                fully_evaluated: Seq::empty(),
            }),
    {
        let r = Averages { scored: Vec::new(), fully_evaluated: Vec::new() };
        proof {
            assert(r.deep_view().scored =~= Seq::empty());
            assert(r.deep_view().fully_evaluated =~= Seq::empty());
        }
        r
    }
}

impl Averages {
    /// Records what one trial's combination scored on its minibatch.
    pub fn record(&mut self, params: &Vec<usize>, score: Double)
        ensures
            final(self).deep_view() == old(self).deep_view().recorded(params@, score),
    {
        let mut at: usize = 0;
        while at < self.scored.len()
            invariant
                *self == *old(self),
                at <= self.scored@.len(),
                forall|j: int| 0 <= j < at ==> (#[trigger] self.scored.deep_view()[j]).0 != params@,
            decreases self.scored@.len() - at,
        {
            proof {
                lemma_params_view(self.scored@[at as int].0);
            }
            if same_params(&self.scored[at].0, params) {
                proof {
                    lemma_scored_at(self.scored.deep_view(), params@, at as int);
                }
                let mut scores = self.scored[at].1.duplicate();
                append(&mut scores, score);
                self.scored[at] = (params.duplicate(), scores);
                proof {
                    lemma_params_view(*params);
                    assert(self.scored.deep_view() =~= old(self).deep_view().recorded(
                        params@,
                        score,
                    ).scored);
                }
                return ;
            }
            at = at + 1;
        }
        proof {
            lemma_scored_at(self.scored.deep_view(), params@, at as int);
            lemma_params_view(*params);
        }
        let mut scores: Vec<Double> = Vec::new();
        scores.push(score);
        proof {
            assert(scores.deep_view() =~= seq![score]);
        }
        append(&mut self.scored, (params.duplicate(), scores));
    }

    /// Notes that a combination has had its full pass, so that a later full evaluation skips it.
    pub fn mark_evaluated(&mut self, params: &Vec<usize>)
        ensures
            final(self).deep_view() == old(self).deep_view().marked(params@),
    {
        if !self.is_marked(params) {
            proof {
                lemma_params_view(*params);
            }
            append(&mut self.fully_evaluated, params.duplicate());
        }
    }

    fn is_marked(&self, params: &Vec<usize>) -> (r: bool)
        ensures
            r == self.deep_view().fully_evaluated.contains(params@),
    {
        let mut i: usize = 0;
        while i < self.fully_evaluated.len()
            invariant
                i <= self.fully_evaluated@.len(),
                forall|j: int|
                    0 <= j < i ==> self.fully_evaluated.deep_view()[j] != params@,
            decreases self.fully_evaluated@.len() - i,
        {
            proof {
                lemma_params_view(self.fully_evaluated@[i as int]);
            }
            if same_params(&self.fully_evaluated[i], params) {
                proof {
                    assert(self.fully_evaluated.deep_view()[i as int] == params@);
                }
                return true;
            }
            i = i + 1;
        }
        false
    }

    /// The entry the next full evaluation takes up, given the mean of each entry's scores, or
    /// nothing where nothing was scored.
    pub fn highest_average(&self, means: &Vec<Double>) -> (r: Option<usize>)
        requires
            means@.len() == self.deep_view().scored.len(),
            forall|i: int| 0 <= i < means@.len() ==> !is_nan(#[trigger] means@[i]),
        ensures
            match r {
                Some(i) => self.deep_view().is_pick(means@, i as int),
                None => self.deep_view().scored.len() == 0,
            },
    {
        let mut open: Option<usize> = None;
        let mut lowest: Option<usize> = None;
        let mut i: usize = 0;
        while i < self.scored.len()
            invariant
                i <= self.scored@.len(),
                means@.len() == self.scored@.len(),
                forall|i: int| 0 <= i < means@.len() ==> !is_nan(#[trigger] means@[i]),
                match open {
                    Some(at) => {
                        &&& at < i
                        &&& self.deep_view().open_at(at as int)
                        &&& forall|j: int|
                            0 <= j < i && #[trigger] self.deep_view().open_at(j) ==> rank(
                                means@[at as int],
                            ) > rank(means@[j]) || (rank(means@[at as int]) == rank(means@[j])
                                && at <= j)
                    },
                    None => forall|j: int|
                        0 <= j < i ==> !(#[trigger] self.deep_view().open_at(j)),
                },
                match lowest {
                    Some(at) => {
                        &&& at < i
                        &&& forall|j: int|
                            0 <= j < i ==> rank(means@[at as int]) < rank(#[trigger] means@[j]) || (
                            rank(means@[at as int]) == rank(means@[j]) && at >= j)
                    },
                    None => i == 0,
                },
            decreases self.scored@.len() - i,
        {
            proof {
                lemma_params_view(self.scored@[i as int].0);
            }
            if !self.is_marked(&self.scored[i].0) {
                proof {
                    assert(self.deep_view().open_at(i as int));
                }
                open =
                match open {
                    Some(at) => if means[i].exceeds(means[at]) {
                        Some(i)
                    } else {
                        Some(at)
                    },
                    None => Some(i),
                };
            }
            lowest =
            match lowest {
                Some(at) => if means[i].exceeds(means[at]) {
                    Some(at)
                } else {
                    Some(i)
                },
                None => Some(i),
            };
            i = i + 1;
        }
        match open {
            Some(at) => Some(at),
            None => lowest,
        }
    }
}

/// A full evaluation has no choice: only one combination is the one it takes up.
pub proof fn law_the_pick_is_unique(averages: AveragesModel, means: Seq<Double>, i: int, j: int)
    requires
        averages.is_pick(means, i),
        averages.is_pick(means, j),
    ensures
        i == j,
{
    if exists|k: int| 0 <= k < averages.scored.len() && averages.open_at(k) {
        assert(averages.open_at(i) && averages.open_at(j));
    } else {
        assert(rank(means[i]) == rank(means[j]));
    }
}

/// Every score is recorded under its combination, behind the earlier scores of that combination, or
/// as the first of a new one at the end. No other combination's scores change, and neither does
/// which were fully evaluated.
pub proof fn law_every_score_is_recorded_under_its_combination(
    averages: AveragesModel,
    params: Seq<usize>,
    score: Double,
    i: int,
)
    requires
        0 <= i <= averages.scored.len(),
        i < averages.scored.len() ==> averages.scored[i].0 == params,
        forall|j: int| 0 <= j < i ==> (#[trigger] averages.scored[j]).0 != params,
    ensures
        ({
            let after = averages.recorded(params, score);
            &&& after.fully_evaluated == averages.fully_evaluated
            &&& i < averages.scored.len() ==> after.scored == averages.scored.update(
                i,
                (params, averages.scored[i].1.push(score)),
            )
            &&& i == averages.scored.len() ==> after.scored == averages.scored.push(
                (params, seq![score]),
            )
        }),
{
    lemma_scored_at(averages.scored, params, i);
}

/// A combination counts as fully evaluated from its evaluation on, and no other becomes so with it.
pub proof fn law_a_full_evaluation_is_remembered(
    averages: AveragesModel,
    params: Seq<usize>,
    other: Seq<usize>,
)
    ensures
        averages.marked(params).scored == averages.scored,
        averages.marked(params).fully_evaluated.contains(params),
        other != params ==> (averages.marked(params).fully_evaluated.contains(other)
            <==> averages.fully_evaluated.contains(other)),
{
    let held = averages.fully_evaluated;
    let after = averages.marked(params).fully_evaluated;
    if !held.contains(params) {
        assert(after.last() == params);
        if held.contains(other) {
            let k = choose|k: int| 0 <= k < held.len() && held[k] == other;
            assert(after[k] == other);
        }
        if after.contains(other) && other != params {
            let k = choose|k: int| 0 <= k < after.len() && after[k] == other;
            assert(held[k] == other);
        }
    }
}

/// While any combination was not fully evaluated, the pick is one of those, none of them averages
/// higher, and of equals it is the first.
pub proof fn law_the_pick_averages_highest(
    averages: AveragesModel,
    means: Seq<Double>,
    i: int,
    j: int,
)
    requires
        averages.is_pick(means, i),
        0 <= j < averages.scored.len(),
        !averages.fully_evaluated.contains(averages.scored[j].0),
        !is_nan(means[i]) && !is_nan(means[j]),
    ensures
        0 <= i < averages.scored.len(),
        !averages.fully_evaluated.contains(averages.scored[i].0),
        !crate::double::exceeds(means[j], means[i]),
        !crate::double::exceeds(means[i], means[j]) ==> i <= j,
{
    assert(averages.open_at(j));
}

/// A run shows its trials, the baseline before them, one full evaluation for each whole interval and
/// one more for what is left of an interval at the end.
pub proof fn law_every_evaluation_is_counted(whole: nat, left: nat, full_eval_steps: nat)
    requires
        left < full_eval_steps,
    ensures
        displayed_trials(whole * full_eval_steps + left, full_eval_steps) == whole * full_eval_steps
            + left + whole + 1 + if left == 0 {
            0int
        } else {
            1int
        },
{
    vstd::arithmetic::div_mod::lemma_fundamental_div_mod_converse(
        (whole * full_eval_steps + left) as int,
        full_eval_steps as int,
        whole as int,
        left as int,
    );
}

} // verus!
