//! Showing a program examples somebody already labelled.
use vstd::prelude::*;
use crate::duplicate::duplicate_range;
use crate::example::{Example, ExampleModel};
use crate::optimize::draw::{is_sample, least, lesser, pick, picked};
use crate::program::{PredictorModel, Program};

verus! {

/// Fills every predictor's demos straight from the trainset: no model calls, no scoring.
#[derive(Clone, Copy, Debug, PartialEq, Eq, Structural)]
pub struct LabeledFewShot {
    /// How many demos each predictor receives.
    pub k: usize,
    /// Whether the demos are drawn, rather than being the first of the trainset.
    pub sample: bool,
    pub seed: u64,
}

/// Sixteen demos, drawn.
pub open spec fn default_labeled() -> LabeledFewShot {
    LabeledFewShot { k: 16, sample: true, seed: 0 }
}

impl Default for LabeledFewShot {
    fn default() -> (r: Self)
        ensures
            r == default_labeled(),
    {
        LabeledFewShot { k: 16, sample: true, seed: 0 }
    }
}

/// The demos one predictor receives, given the positions drawn for it. An empty trainset clears
/// them.
pub open spec fn labeled_demos(
    optimizer: LabeledFewShot,
    trainset: Seq<ExampleModel>,
    drawn: Seq<usize>,
) -> Seq<ExampleModel> {
    if trainset.len() == 0 {
        Seq::empty()
    } else if optimizer.sample {
        picked(trainset, drawn)
    } else {
        trainset.take(least(optimizer.k as nat, trainset.len()) as int)
    }
}

/// Every predictor with the demos it receives.
pub open spec fn labeled(
    optimizer: LabeledFewShot,
    program: Seq<PredictorModel>,
    trainset: Seq<ExampleModel>,
    draws: Seq<Seq<usize>>,
) -> Seq<PredictorModel> {
    Seq::new(
        program.len(),
        |p: int| program[p].with_demos(labeled_demos(optimizer, trainset, draws[p])),
    )
}

/// Whether these draws are what the optimizer asks a generator for: one sample per predictor,
/// where it draws at all.
pub open spec fn draws_for(
    optimizer: LabeledFewShot,
    predictors: nat,
    trainset: nat,
    draws: Seq<Seq<usize>>,
) -> bool {
    optimizer.sample && trainset > 0 ==> {
        &&& draws.len() >= predictors
        &&& forall|p: int|
            0 <= p < predictors ==> is_sample(
                #[trigger] draws[p],
                trainset,
                least(optimizer.k as nat, trainset),
            )
    }
}

impl LabeledFewShot {
    /// Why a compile is refused: nothing is scored, and nothing is learned from a teacher.
    pub fn refusal(&self, valset: bool, teacher: bool) -> (r: Option<String>)
        ensures
            r.deep_view() == if valset {
                Some(
                    "LabeledFewShot samples demos from the trainset and never scores a candidate, so it has no valset to score on"@,
                )
            } else if teacher {
                Some("LabeledFewShot draws demos from the trainset and has no teacher to learn from"@)
            } else {
                None
            },
    {
        if valset {
            Some(
                "LabeledFewShot samples demos from the trainset and never scores a candidate, so it has no valset to score on".to_owned(),
            )
        } else if teacher {
            Some(
                "LabeledFewShot draws demos from the trainset and has no teacher to learn from".to_owned(),
            )
        } else {
            None
        }
    }

    pub fn new(k: usize) -> (r: LabeledFewShot)
        ensures
            r == (LabeledFewShot { k, ..default_labeled() }),
    {
        LabeledFewShot { k, sample: true, seed: 0 }
    }

    /// How many positions each predictor has drawn for it, where any are.
    pub fn draw_size(&self, trainset: usize) -> (r: Option<usize>)
        ensures
            match r {
                Some(count) => self.sample && trainset > 0 && count == least(
                    self.k as nat,
                    trainset as nat,
                ),
                None => !self.sample || trainset == 0,
            },
    {
        if self.sample && trainset > 0 {
            Some(lesser(self.k, trainset))
        } else {
            None
        }
    }

    /// Writes demos into every predictor of `student`, in place of whatever it held.
    pub fn compile(&self, student: &mut Program, trainset: &Vec<Example>, draws: &Vec<Vec<usize>>)
        requires
            draws_for(
                *self,
                old(student).deep_view().len(),
                trainset@.len(),
                draws.deep_view(),
            ),
        ensures
            final(student).deep_view() == labeled(
                *self,
                old(student).deep_view(),
                trainset.deep_view(),
                draws.deep_view(),
            ),
    {
        let mut p: usize = 0;
        while p < student.len()
            invariant
                p <= student.deep_view().len(),
                student.deep_view().len() == old(student).deep_view().len(),
                draws_for(
                    *self,
                    old(student).deep_view().len(),
                    trainset@.len(),
                    draws.deep_view(),
                ),
                forall|j: int|
                    0 <= j < student.deep_view().len() ==> student.deep_view()[j] == (if j < p {
                        old(student).deep_view()[j].with_demos(
                            labeled_demos(*self, trainset.deep_view(), draws.deep_view()[j]),
                        )
                    } else {
                        old(student).deep_view()[j]
                    }),
            decreases student.deep_view().len() - p,
        {
            let demos: Vec<Example> = if trainset.len() == 0 {
                Vec::new()
            } else if self.sample {
                proof {
                    assert(is_sample(
                        draws.deep_view()[p as int],
                        trainset@.len(),
                        least(self.k as nat, trainset@.len()),
                    ));
                    crate::optimize::mipro::minibatch::lemma_params_view(draws@[p as int]);
                }
                pick(trainset, &draws[p])
            } else {
                duplicate_range(trainset, 0, lesser(self.k, trainset.len()))
            };
            proof {
                assert(demos.deep_view() =~= labeled_demos(
                    *self,
                    trainset.deep_view(),
                    draws.deep_view()[p as int],
                ));
            }
            student.set_demos(p, demos);
            p = p + 1;
        }
        proof {
            assert(student.deep_view() =~= labeled(
                *self,
                old(student).deep_view(),
                trainset.deep_view(),
                draws.deep_view(),
            ));
        }
    }
}

/// Compiling twice replaces rather than appends: what a program held before does not matter.
pub proof fn law_earlier_demos_leave_no_trace(
    optimizer: LabeledFewShot,
    program: Seq<PredictorModel>,
    trainset: Seq<ExampleModel>,
    first: Seq<Seq<usize>>,
    second: Seq<Seq<usize>>,
)
    ensures
        labeled(optimizer, labeled(optimizer, program, trainset, first), trainset, second)
            == labeled(optimizer, program, trainset, second),
{
    assert(labeled(optimizer, labeled(optimizer, program, trainset, first), trainset, second)
        =~= labeled(optimizer, program, trainset, second));
}

/// Every predictor gets as many demos as were asked for, and never more than the trainset holds.
pub proof fn law_the_demo_count_is_capped(
    optimizer: LabeledFewShot,
    program: Seq<PredictorModel>,
    trainset: Seq<ExampleModel>,
    draws: Seq<Seq<usize>>,
    p: int,
)
    requires
        draws_for(optimizer, program.len(), trainset.len(), draws),
        0 <= p < program.len(),
    ensures
        labeled(optimizer, program, trainset, draws)[p].demos.len() == least(
            optimizer.k as nat,
            trainset.len(),
        ),
{
    if optimizer.sample && trainset.len() > 0 {
        assert(is_sample(draws[p], trainset.len(), least(optimizer.k as nat, trainset.len())));
    }
}

/// Drawn demos are the trainset rows at the drawn positions, one predictor's draw to each; undrawn
/// ones are the first rows of the trainset, for every predictor alike. Only the demos change.
pub proof fn law_demos_are_the_chosen_rows(
    optimizer: LabeledFewShot,
    program: Seq<PredictorModel>,
    trainset: Seq<ExampleModel>,
    draws: Seq<Seq<usize>>,
    p: int,
    k: int,
)
    requires
        draws_for(optimizer, program.len(), trainset.len(), draws),
        0 <= p < program.len(),
    ensures
        ({
            let after = labeled(optimizer, program, trainset, draws);
            let most = if optimizer.k <= trainset.len() {
                optimizer.k as int
            } else {
                trainset.len() as int
            };
            &&& after.len() == program.len()
            &&& after[p].demos.len() == most
            &&& 0 <= k < most ==> after[p].demos[k] == if optimizer.sample {
                trainset[draws[p][k] as int]
            } else {
                trainset[k]
            }
            &&& after[p].with_demos(program[p].demos) == program[p]
        }),
{
    law_the_demo_count_is_capped(optimizer, program, trainset, draws, p);
}

} // verus!
