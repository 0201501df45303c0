//! Recording a predictor's call without its caller having handed a trace to it.
use vstd::prelude::*;
use crate::duplicate::append;
use crate::module::trace::{StepModel, TraceStep};

verus! {

/// What a run in progress records into, and what to call each predictor that records.
#[derive(Debug)]
pub struct TraceContext {
    pub steps: Vec<TraceStep>,
    /// The name of each predictor, by its identity.
    pub predictor_names: Vec<(usize, String)>,
}

/// What a [`TraceContext`] holds.
#[verifier::ext_equal]
pub struct ContextModel {
    pub steps: Seq<StepModel>,
    pub predictor_names: Seq<(usize, Seq<char>)>,
}

impl DeepView for TraceContext {
    type V = ContextModel;

    open spec fn deep_view(&self) -> ContextModel {
        ContextModel {
            steps: self.steps.deep_view(),
            predictor_names: Seq::new(
                self.predictor_names@.len(),
                |i: int| (self.predictor_names@[i].0, self.predictor_names@[i].1@),
            ),
        }
    }
}

/// The name given to a predictor.
pub open spec fn name_of(names: Seq<(usize, Seq<char>)>, identity: usize) -> Option<Seq<char>>
    decreases names.len(),
{
    if names.len() == 0 {
        None
    } else if names[0].0 == identity {
        Some(names[0].1)
    } else {
        name_of(names.skip(1), identity)
    }
}

impl ContextModel {
    /// One more call recorded, under the name the run knows its predictor by. A predictor it does
    /// not know keeps its own.
    pub open spec fn recorded(self, identity: usize, step: StepModel) -> ContextModel {
        ContextModel {
            steps: self.steps.push(
                match name_of(self.predictor_names, identity) {
                    Some(name) => StepModel { predictor: name, ..step },
                    None => step,
                },
            ),
            ..self
        }
    }
}

impl TraceContext {
    /// A run that has recorded nothing.
    pub fn new(predictor_names: Vec<(usize, String)>) -> (r: TraceContext)
        ensures
            r.deep_view().steps == Seq::<StepModel>::empty(),
            r.predictor_names == predictor_names,
    {
        let r = TraceContext { steps: Vec::new(), predictor_names };
        proof {
            assert(r.steps.deep_view() =~= Seq::<StepModel>::empty());
        }
        r
    }

    fn name(&self, identity: usize) -> (r: Option<&String>)
        ensures
            match r {
                Some(name) => name_of(self.deep_view().predictor_names, identity) == Some(name@),
                None => name_of(self.deep_view().predictor_names, identity) is None,
            },
    {
        let ghost names = self.deep_view().predictor_names;
        let mut i: usize = 0;
        proof {
            assert(names.skip(0) =~= names);
        }
        while i < self.predictor_names.len()
            invariant
                i <= self.predictor_names@.len(),
                names == self.deep_view().predictor_names,
                name_of(names, identity) == name_of(names.skip(i as int), identity),
            decreases self.predictor_names@.len() - i,
        {
            proof {
                assert(names.skip(i as int).skip(1) =~= names.skip(i + 1));
                assert(names.skip(i as int)[0] == names[i as int]);
            }
            if self.predictor_names[i].0 == identity {
                return Some(&self.predictor_names[i].1);
            }
            i = i + 1;
        }
        None
    }
}

/// Whether a run is recording.
pub fn listening(context: &Option<TraceContext>) -> (r: bool)
    ensures
        r == context is Some,
{
    context.is_some()
}

/// Records one call, where a run is recording.
pub fn record(context: &mut Option<TraceContext>, identity: usize, step: TraceStep)
    ensures
        final(context).deep_view() == match old(context).deep_view() {
            Some(held) => Some(held.recorded(identity, step.deep_view())),
            None => None,
        },
{
    let mut held: Option<TraceContext> = None;
    std::mem::swap(&mut held, context);
    if let Some(mut run) = held {
        let ghost names = run.deep_view().predictor_names;
        let mut step = step;
        if let Some(name) = run.name(identity) {
            step.predictor = name.clone();
        }
        append(&mut run.steps, step);
        proof {
            assert(run.deep_view().predictor_names =~= names);
        }
        *context = Some(run);
    }
}

/// Recording adds one step after the others and changes none of them, and never renames what it
/// has no name for.
pub proof fn law_recording_only_adds(context: ContextModel, identity: usize, step: StepModel, i: int)
    requires
        0 <= i < context.steps.len(),
    ensures
        context.recorded(identity, step).steps.len() == context.steps.len() + 1,
        context.recorded(identity, step).steps[i] == context.steps[i],
        name_of(context.predictor_names, identity) is None ==> context.recorded(
            identity,
            step,
        ).steps.last() == step,
{
}

/// A call is recorded under the first name the run gives its predictor, with everything else of it as
/// it was.
pub proof fn law_a_call_is_recorded_under_its_predictors_name(
    context: ContextModel,
    identity: usize,
    step: StepModel,
    k: int,
)
    ensures
        ({
            let names = context.predictor_names;
            let after = context.recorded(identity, step);
            &&& after.predictor_names == names
            &&& after.steps.len() == context.steps.len() + 1
            &&& 0 <= k < names.len() && names[k].0 == identity && (forall|j: int|
                0 <= j < k ==> (#[trigger] names[j]).0 != identity) ==> after.steps.last()
                == (StepModel { predictor: names[k].1, ..step })
            &&& (forall|j: int| 0 <= j < names.len() ==> (#[trigger] names[j]).0 != identity)
                ==> after.steps.last() == step
        }),
{
    let names = context.predictor_names;
    if 0 <= k < names.len() && names[k].0 == identity && forall|j: int|
        0 <= j < k ==> (#[trigger] names[j]).0 != identity {
        lemma_name_of(names, identity, k);
    }
    if forall|j: int| 0 <= j < names.len() ==> (#[trigger] names[j]).0 != identity {
        lemma_name_of(names, identity, names.len() as int);
    }
}

proof fn lemma_name_of(names: Seq<(usize, Seq<char>)>, identity: usize, k: int)
    requires
        0 <= k <= names.len(),
        k < names.len() ==> names[k].0 == identity,
        forall|j: int| 0 <= j < k ==> (#[trigger] names[j]).0 != identity,
    ensures
        name_of(names, identity) == if k < names.len() {
            Some(names[k].1)
        } else {
            None
        },
    decreases names.len(),
{
    if k > 0 {
        let rest = names.skip(1);
        assert(names[0].0 != identity);
        assert forall|j: int| 0 <= j < k - 1 implies (#[trigger] rest[j]).0 != identity by {
            assert(rest[j] == names[j + 1]);
        }
        lemma_name_of(rest, identity, k - 1);
    }
}

} // verus!
