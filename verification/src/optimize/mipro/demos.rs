//! Building the demo sets a search chooses among, several per predictor: one without demos, one of
//! labels only, one bootstrapped from the trainset as it stands, and then shuffled bootstraps.
use vstd::prelude::*;
use crate::double::Double;
use crate::duplicate::{append, Duplicate};
use crate::example::{Example, ExampleModel};
use crate::optimize::bootstrap::{configured, BootstrapFewShot};
use crate::optimize::draw::{is_sample, pick, picked};
use crate::optimize::labeled::LabeledFewShot;
use crate::program::{all_cleared, PredictorModel, Program};

verus! {

/// The fewest demos a shuffled bootstrap is drawn to ask for.
pub const MIN_NUM_SAMPLES: usize = 1;

/// How one demo set comes about.
#[allow(inconsistent_fields)]
#[derive(Clone, Copy, Debug, PartialEq, Eq, Structural)]
pub enum Strategy {
    /// No demos.
    ZeroShot,
    /// Labelled demos only.
    Labeled { optimizer: LabeledFewShot },
    /// A bootstrap over the trainset as it stands.
    Bootstrap { optimizer: BootstrapFewShot },
    /// A bootstrap over a shuffled trainset, of a size drawn for it.
    Shuffled,
}

/// The settings demo sets are built under.
#[derive(Clone, Copy, Debug, PartialEq, Eq, Structural)]
pub struct Budget {
    pub num_candidate_sets: usize,
    pub max_labeled: usize,
    pub max_bootstrapped: usize,
    pub metric_threshold: Option<Double>,
}

impl Budget {
    /// The bootstrap that asks for so many demos.
    pub open spec fn bootstrapping(self, demos: usize) -> BootstrapFewShot {
        BootstrapFewShot {
            max_bootstrapped_demos: demos,
            max_labeled_demos: self.max_labeled,
            metric_threshold: self.metric_threshold,
            ..configured(true)
        }
    }

    /// How the set at this place comes about. Without labelled demos to show, the labels-only set
    /// is a shuffled one.
    pub open spec fn strategy_at(self, set: nat) -> Strategy {
        if set == 0 {
            Strategy::ZeroShot
        } else if set == 1 && self.max_labeled > 0 {
            Strategy::Labeled {
                optimizer: LabeledFewShot { k: self.max_labeled, sample: true, seed: 0 },
            }
        } else if set == 2 {
            Strategy::Bootstrap { optimizer: self.bootstrapping(self.max_bootstrapped) }
        } else {
            Strategy::Shuffled
        }
    }

    /// The bootstrap that asks for so many demos.
    pub fn bootstrap(&self, demos: usize) -> (r: BootstrapFewShot)
        ensures
            r == self.bootstrapping(demos),
    {
        BootstrapFewShot {
            max_bootstrapped_demos: demos,
            max_labeled_demos: self.max_labeled,
            metric_threshold: self.metric_threshold,
            ..BootstrapFewShot::new()
        }
    }

    /// How the set at this place comes about.
    pub fn strategy(&self, set: usize) -> (r: Strategy)
        ensures
            r == self.strategy_at(set as nat),
    {
        if set == 0 {
            Strategy::ZeroShot
        } else if set == 1 && self.max_labeled > 0 {
            Strategy::Labeled {
                optimizer: LabeledFewShot { k: self.max_labeled, sample: true, seed: 0 },
            }
        } else if set == 2 {
            Strategy::Bootstrap { optimizer: self.bootstrap(self.max_bootstrapped) }
        } else {
            Strategy::Shuffled
        }
    }

    /// The trainset a shuffled set is bootstrapped from and the bootstrap that is run, given the
    /// shuffle and the size that were drawn.
    pub fn shuffled(&self, trainset: &Vec<Example>, permutation: &Vec<usize>, size: usize) -> (r: (
        Vec<Example>,
        BootstrapFewShot,
    ))
        requires
            is_sample(permutation@, trainset@.len(), trainset@.len()),
            MIN_NUM_SAMPLES <= size <= self.max_bootstrapped,
        ensures
            r.0.deep_view() == picked(trainset.deep_view(), permutation@),
            r.1 == self.bootstrapping(size),
    {
        (pick(trainset, permutation), self.bootstrap(size))
    }
}

/// Demo sets being built.
#[derive(Debug)]
pub struct DemoSets {
    pub budget: Budget,
    /// How many sets there are.
    pub built: usize,
    /// The sets, by predictor.
    pub sets: Vec<Vec<Vec<Example>>>,
}

/// What [`DemoSets`] holds.
#[verifier::ext_equal]
pub struct DemoSetsModel {
    pub budget: Budget,
    pub built: usize,
    pub sets: Seq<Seq<Seq<ExampleModel>>>,
}

impl DeepView for DemoSets {
    type V = DemoSetsModel;

    open spec fn deep_view(&self) -> DemoSetsModel {
        DemoSetsModel { budget: self.budget, built: self.built, sets: self.sets.deep_view() }
    }
}

impl DemoSetsModel {
    /// How the next set comes about, or nothing once all are built.
    pub open spec fn next(self) -> Option<Strategy> {
        if self.built < self.budget.num_candidate_sets {
            Some(self.budget.strategy_at(self.built as nat))
        } else {
            None
        }
    }

    /// Every predictor's demos are a set of its own.
    pub open spec fn taken(self, program: Seq<PredictorModel>) -> DemoSetsModel {
        DemoSetsModel {
            built: (self.built + 1) as usize,
            sets: Seq::new(self.sets.len(), |p: int| self.sets[p].push(program[p].demos)),
            ..self
        }
    }

    /// No set yet, for that many predictors.
    pub open spec fn begun(budget: Budget, predictors: nat) -> DemoSetsModel {
        DemoSetsModel { budget, built: 0, sets: Seq::new(predictors, |p: int| Seq::empty()) }
    }

    /// Every predictor has every set so far, and the first of them has no demos.
    pub open spec fn well_formed(self) -> bool {
        &&& self.built <= self.budget.num_candidate_sets
        &&& forall|p: int| 0 <= p < self.sets.len() ==> (#[trigger] self.sets[p]).len() == self.built
        &&& self.built > 0 ==> forall|p: int|
            0 <= p < self.sets.len() ==> (#[trigger] self.sets[p])[0].len() == 0
    }

    /// Whether a student's demos can be the next set: a [`Strategy::ZeroShot`] set is that of a
    /// student without any.
    pub open spec fn may_take(self, program: Seq<PredictorModel>) -> bool {
        self.next() == Some(Strategy::ZeroShot) ==> program == all_cleared(program)
    }
}

impl DemoSets {
    /// No set yet, for that many predictors.
    pub fn begin(budget: Budget, predictors: usize) -> (r: DemoSets)
        ensures
            r.deep_view() == DemoSetsModel::begun(budget, predictors as nat),
            r.deep_view().well_formed(),
    {
        let mut sets: Vec<Vec<Vec<Example>>> = Vec::new();
        let mut i: usize = 0;
        while i < predictors
            invariant
                i <= predictors,
                sets.deep_view() =~= Seq::new(i as nat, |p: int| Seq::<Seq<ExampleModel>>::empty()),
            decreases predictors - i,
        {
            let none: Vec<Vec<Example>> = Vec::new();
            proof {
                assert(none.deep_view() =~= Seq::<Seq<ExampleModel>>::empty());
            }
            append(&mut sets, none);
            i = i + 1;
        }
        DemoSets { budget, built: 0, sets }
    }

    /// How the next set comes about, or nothing once all are built. The student is cleared first,
    /// which is all that a [`Strategy::ZeroShot`] set takes.
    pub fn next(&self, student: &mut Program) -> (r: Option<Strategy>)
        ensures
            r is Some ==> self.deep_view().may_take(final(student).deep_view()),
            r == self.deep_view().next(),
            final(student).deep_view() == if self.deep_view().next() is Some {
                all_cleared(old(student).deep_view())
            } else {
                old(student).deep_view()
            },
    {
        if self.built < self.budget.num_candidate_sets {
            student.clear_demos();
            proof {
                assert(student.deep_view() =~= all_cleared(student.deep_view()));
            }
            Some(self.budget.strategy(self.built))
        } else {
            None
        }
    }

    /// Takes the demos a strategy left in the student as the next set of each predictor.
    pub fn take_set(&mut self, student: &Program)
        requires
            old(self).deep_view().well_formed(),
            old(self).deep_view().next() is Some,
            student.deep_view().len() == old(self).deep_view().sets.len(),
            old(self).deep_view().may_take(student.deep_view()),
        ensures
            final(self).deep_view() == old(self).deep_view().taken(student.deep_view()),
            final(self).deep_view().well_formed(),
    {
        let ghost was = self.deep_view();
        let ghost program = student.deep_view();
        let mut p: usize = 0;
        while p < self.sets.len()
            invariant
                p <= self.sets@.len(),
                self.sets@.len() == was.sets.len(),
                self.budget == was.budget,
                self.built == was.built,
                program == student.deep_view(),
                program.len() == was.sets.len(),
                forall|q: int|
                    0 <= q < was.sets.len() ==> self.sets.deep_view()[q] == (if q < p {
                        was.sets[q].push(program[q].demos)
                    } else {
                        was.sets[q]
                    }),
            decreases self.sets@.len() - p,
        {
            let ghost before = self.sets.deep_view();
            append(&mut self.sets[p], student.predictors[p].demos.duplicate());
            proof {
                assert(program[p as int] == student.predictors@[p as int].deep_view());
                assert(self.sets.deep_view() =~= before.update(
                    p as int,
                    before[p as int].push(program[p as int].demos),
                ));
            }
            p = p + 1;
        }
        self.built = self.built + 1;
        proof {
            assert(self.deep_view() =~= was.taken(program));
            assert forall|q: int| 0 <= q < self.deep_view().sets.len() implies (
            #[trigger] self.deep_view().sets[q])[0].len() == 0 by {
                assert(was.sets[q].len() == was.built);
                if was.built == 0 {
                    assert(program[q] == all_cleared(program)[q]);
                }
            }
        }
    }

    /// The sets, by predictor. The student is left without demos.
    pub fn finish(self, student: &mut Program) -> (r: Vec<Vec<Vec<Example>>>)
        ensures
            r.deep_view() == self.deep_view().sets,
            final(student).deep_view() == all_cleared(old(student).deep_view()),
    {
        student.clear_demos();
        self.sets
    }
}

/// The sets already taken stay as they are.
pub proof fn law_taking_a_set_keeps_the_others(
    sets: DemoSetsModel,
    program: Seq<PredictorModel>,
    p: int,
    k: int,
)
    requires
        sets.well_formed(),
        0 <= p < sets.sets.len(),
        program.len() == sets.sets.len(),
        0 <= k < sets.built,
    ensures
        sets.taken(program).sets[p][k] == sets.sets[p][k],
{
}

/// A new set stands last, and is what the student holds. A student fresh from
/// [`DemoSets::next`] holds no demos, so a set taken of it as it is has none.
pub proof fn law_the_new_set_is_what_the_student_holds(
    sets: DemoSetsModel,
    program: Seq<PredictorModel>,
    p: int,
)
    requires
        sets.well_formed(),
        sets.next() is Some,
        0 <= p < sets.sets.len(),
        program.len() == sets.sets.len(),
    ensures
        sets.taken(program).sets[p].len() == sets.built + 1,
        sets.taken(program).sets[p][sets.built as int] == program[p].demos,
        sets.taken(all_cleared(program)).sets[p][sets.built as int] == Seq::<ExampleModel>::empty(),
{
}

/// The first set of every predictor has no demos, whatever the student came with, and no later set
/// changes that.
pub proof fn law_the_first_set_is_empty(
    budget: Budget,
    student: Seq<PredictorModel>,
    sets: DemoSetsModel,
    program: Seq<PredictorModel>,
    p: int,
)
    requires
        budget.num_candidate_sets > 0,
        sets.well_formed(),
        sets.next() is Some,
        sets.may_take(program),
        program.len() == sets.sets.len(),
        0 <= p < sets.sets.len(),
    ensures
        DemoSetsModel::begun(budget, student.len()).next() == Some(Strategy::ZeroShot),
        DemoSetsModel::begun(budget, student.len()).may_take(all_cleared(student)),
        sets.built > 0 ==> sets.sets[p][0] == Seq::<ExampleModel>::empty(),
        sets.taken(program).sets[p][0] == Seq::<ExampleModel>::empty(),
{
    assert(all_cleared(all_cleared(student)) =~= all_cleared(student));
    assert(sets.sets[p].len() == sets.built);
    if sets.built == 0 {
        assert(program[p] == all_cleared(program)[p]);
    } else {
        assert(sets.sets[p][0].len() == 0);
    }
    assert(sets.taken(program).sets[p][0] =~= Seq::<ExampleModel>::empty());
}

/// The sets come about in a fixed order: none, then labelled demos where there may be any, then a
/// bootstrap of the whole size, and shuffled bootstraps from there on.
pub proof fn law_the_sets_come_in_order(budget: Budget, set: nat)
    ensures
        budget.strategy_at(0) == Strategy::ZeroShot,
        budget.strategy_at(1) is Labeled <==> budget.max_labeled > 0,
        budget.strategy_at(1) matches Strategy::Labeled { optimizer } ==> optimizer.k
            == budget.max_labeled && optimizer.sample,
        budget.max_labeled == 0 ==> budget.strategy_at(1) is Shuffled,
        budget.strategy_at(2) matches Strategy::Bootstrap { optimizer }
            && optimizer.max_bootstrapped_demos == budget.max_bootstrapped,
        set >= 3 ==> budget.strategy_at(set) == Strategy::Shuffled,
{
}

/// A bootstrap asks for the demos it is told to, under the budget's own bounds, in one round and with
/// the metric.
pub proof fn law_a_bootstrap_keeps_to_the_budget(budget: Budget, demos: usize)
    ensures
        budget.bootstrapping(demos).max_bootstrapped_demos == demos,
        budget.bootstrapping(demos).max_labeled_demos == budget.max_labeled,
        budget.bootstrapping(demos).metric_threshold == budget.metric_threshold,
        budget.bootstrapping(demos).metric,
        budget.bootstrapping(demos).max_rounds == 1,
        budget.bootstrapping(demos).max_errors == 10,
{
}

/// Sets are built until there are as many as asked for.
pub proof fn law_as_many_sets_are_built_as_asked_for(
    sets: DemoSetsModel,
    program: Seq<PredictorModel>,
)
    requires
        sets.well_formed(),
    ensures
        sets.next() is None <==> sets.built == sets.budget.num_candidate_sets,
        sets.next() is Some ==> sets.taken(program).built == sets.built + 1,
        sets.taken(program).budget == sets.budget,
        sets.taken(program).sets.len() == sets.sets.len(),
{
}

} // verus!
