//! What one run does from its datasets to its search: which examples it learns from and is scored
//! on, which demo sets it builds, what grounds its proposals, and whether demos are searched.
use vstd::prelude::*;
use crate::duplicate::Duplicate;
use crate::example::{Example, ExampleModel};
use crate::optimize::draw::{is_sample, least};
use crate::optimize::mipro::demos::Budget;
use crate::optimize::mipro::grounded::GroundedProposer;
use crate::optimize::mipro::settings::{
    split_of, DatasetsRefused, MIPROv2, ModeModel, RunMode, SettingsModel, ZEROSHOT_BOOTSTRAPPED,
    ZEROSHOT_LABELED,
};
use crate::program::Program;

verus! {

/// The plan of one run.
#[derive(Debug)]
pub struct Plan {
    /// What the demo sets are bootstrapped from, and what a summary is made of.
    pub trainset: Vec<Example>,
    pub mode: RunMode,
    /// How the demo sets are built.
    pub budget: Budget,
    /// How many examples each summarizing call reads, where the proposals are shown a summary.
    pub summarize: Option<usize>,
    /// Whether the demo sets are shown to the proposals and searched.
    pub offers_demos: bool,
}

/// What a [`Plan`] holds.
#[verifier::ext_equal]
pub struct PlanModel {
    pub trainset: Seq<ExampleModel>,
    pub mode: ModeModel,
    pub budget: Budget,
    pub summarize: Option<usize>,
    pub offers_demos: bool,
}

impl DeepView for Plan {
    type V = PlanModel;

    open spec fn deep_view(&self) -> PlanModel {
        PlanModel {
            trainset: self.trainset.deep_view(),
            mode: self.mode.deep_view(),
            budget: self.budget,
            summarize: self.summarize,
            offers_demos: self.offers_demos,
        }
    }
}

impl SettingsModel {
    /// The plan of a run, given its datasets and the positions its preset drew. A run that searches
    /// no demos builds its sets all the same, under counts of its own.
    pub open spec fn planned(
        self,
        predictors: nat,
        trainset: Seq<ExampleModel>,
        valset: Seq<ExampleModel>,
        drawn: Seq<usize>,
    ) -> PlanModel {
        let zeroshot = self.is_zeroshot();
        let mode = self.mode(predictors, zeroshot, valset, drawn);
        PlanModel {
            trainset,
            mode,
            budget: Budget {
                num_candidate_sets: mode.fewshot_candidates as usize,
                max_labeled: if zeroshot {
                    ZEROSHOT_LABELED
                } else {
                    self.max_labeled_demos
                },
                max_bootstrapped: if zeroshot {
                    ZEROSHOT_BOOTSTRAPPED
                } else {
                    self.max_bootstrapped_demos
                },
                metric_threshold: self.metric_threshold,
            },
            summarize: if self.data_aware_proposer {
                Some(self.view_data_batch_size)
            } else {
                None
            },
            offers_demos: !zeroshot,
        }
    }
}

impl MIPROv2 {
    /// What a run on this student learns from and is scored on, or nothing at all where there is no
    /// predictor to write for.
    pub fn open_run(
        &self,
        student: &Program,
        trainset: &Vec<Example>,
        valset: Option<&Vec<Example>>,
    ) -> (r: Result<Option<(Vec<Example>, Vec<Example>)>, DatasetsRefused>)
        ensures
            match r {
                Ok(None) => student.deep_view().len() == 0,
                Ok(Some((train, scored))) => {
                    &&& student.deep_view().len() > 0
                    &&& split_of(
                        trainset.deep_view(),
                        match valset {
                            Some(given) => Some(given.deep_view()),
                            None => None,
                        },
                    ) == Ok::<_, DatasetsRefused>((train.deep_view(), scored.deep_view()))
                },
                Err(refused) => {
                    &&& student.deep_view().len() > 0
                    &&& split_of(
                        trainset.deep_view(),
                        match valset {
                            Some(given) => Some(given.deep_view()),
                            None => None,
                        },
                    ) == Err::<(Seq<ExampleModel>, Seq<ExampleModel>), DatasetsRefused>(refused)
                },
            },
    {
        if student.predictors.len() == 0 {
            return Ok(None);
        }
        match self.datasets(trainset, valset) {
            Ok(split) => Ok(Some(split)),
            Err(refused) => Err(refused),
        }
    }

    /// The plan of a run, given its datasets and the positions its preset drew.
    pub fn plan(
        &self,
        predictors: usize,
        trainset: Vec<Example>,
        valset: &Vec<Example>,
        drawn: &Vec<usize>,
    ) -> (r: Plan)
        requires
            4 * predictors <= usize::MAX / 64 - 1,
            match self.auto {
                Some(auto) => is_sample(
                    drawn@,
                    valset@.len(),
                    least(auto.validation_size(), valset@.len()),
                ),
                None => true,
            },
        ensures
            r.deep_view() == self.deep_view().planned(
                predictors as nat,
                trainset.deep_view(),
                valset.deep_view(),
                drawn@,
            ),
    {
        let zeroshot: bool = self.zeroshot();
        let mode = self.run_mode(predictors, zeroshot, valset, drawn);
        let (max_labeled, max_bootstrapped) = self.demo_budgets();
        let budget = Budget {
            num_candidate_sets: mode.fewshot_candidates,
            max_labeled,
            max_bootstrapped,
            metric_threshold: self.metric_threshold,
        };
        let summarize: Option<usize> = if self.data_aware_proposer {
            Some(self.view_data_batch_size)
        } else {
            None
        };
        Plan { trainset, mode, budget, summarize, offers_demos: !zeroshot }
    }

    /// What grounds the proposals, given the summary of the trainset where one was made.
    pub fn proposer(&self, dataset_summary: Option<String>) -> (r: GroundedProposer)
        ensures
            r.dataset_summary.deep_view() == dataset_summary.deep_view(),
            r.program_code.deep_view() == self.program_code.deep_view(),
            r.tip_aware == self.tip_aware,
            r.init_temperature == self.init_temperature,
            r.fewshot_aware == self.fewshot_aware_proposer,
    {
        GroundedProposer {
            dataset_summary,
            program_code: self.program_code.duplicate(),
            tip_aware: self.tip_aware,
            init_temperature: self.init_temperature,
            fewshot_aware: self.fewshot_aware_proposer,
        }
    }
}

impl Plan {
    /// The demo sets as the proposals and the search are given them: not at all where demos are not
    /// searched.
    pub fn offered(&self, sets: Vec<Vec<Vec<Example>>>) -> (r: Option<Vec<Vec<Vec<Example>>>>)
        ensures
            r.deep_view() == if self.deep_view().offers_demos {
                Some(sets.deep_view())
            } else {
                None
            },
    {
        if self.offers_demos {
            Some(sets)
        } else {
            None
        }
    }
}

/// A run that searches no demos still builds sets, and a run that searches them builds them under
/// the counts it was given.
pub proof fn law_demo_sets_are_always_built(
    settings: SettingsModel,
    predictors: nat,
    trainset: Seq<ExampleModel>,
    valset: Seq<ExampleModel>,
    drawn: Seq<usize>,
)
    ensures
        ({
            let plan = settings.planned(predictors, trainset, valset, drawn);
            &&& plan.budget.max_labeled > 0 || plan.budget.max_bootstrapped > 0
            &&& plan.offers_demos ==> plan.budget.max_labeled == settings.max_labeled_demos
                && plan.budget.max_bootstrapped == settings.max_bootstrapped_demos
            &&& settings.auto is Some ==> plan.budget.num_candidate_sets > 0
        }),
{
}

/// A run is planned over the trainset it was given, in the mode its settings come to. It offers demos
/// to the search unless both budgets are nothing, and summarizes the trainset where its proposer
/// looks at data.
pub proof fn law_a_plan_follows_its_settings(
    settings: SettingsModel,
    predictors: nat,
    trainset: Seq<ExampleModel>,
    valset: Seq<ExampleModel>,
    drawn: Seq<usize>,
)
    ensures
        ({
            let plan = settings.planned(predictors, trainset, valset, drawn);
            let none = settings.max_bootstrapped_demos == 0 && settings.max_labeled_demos == 0;
            &&& plan.trainset == trainset
            &&& plan.mode == settings.mode(predictors, none, valset, drawn)
            &&& plan.offers_demos == !none
            &&& none ==> plan.budget.max_bootstrapped == ZEROSHOT_BOOTSTRAPPED
                && plan.budget.max_labeled == ZEROSHOT_LABELED
            &&& plan.budget.num_candidate_sets == plan.mode.fewshot_candidates as usize
            &&& plan.budget.metric_threshold == settings.metric_threshold
            &&& plan.summarize is Some <==> settings.data_aware_proposer
            &&& plan.summarize is Some ==> plan.summarize->0 == settings.view_data_batch_size
        }),
{
}

} // verus!
