//! A program as its predictors, which is what an optimizer reads and writes.
use vstd::prelude::*;
use crate::double::Double;
use crate::duplicate::Duplicate;
use crate::example::{Example, ExampleModel};
use crate::signature::{Signature, SignatureModel};

verus! {

/// How a predictor asks for its reply to be sampled.
#[derive(Clone, Copy, Debug, PartialEq, Eq, Structural)]
pub struct Sampling {
    pub temperature: Option<Double>,
    /// What tells two otherwise identical asks apart, so that the second is not answered from a
    /// cache of the first.
    pub rollout_id: Option<u64>,
    /// How many completions one ask is answered with.
    pub completions: Option<u32>,
}

impl DeepView for Sampling {
    type V = Sampling;

    open spec fn deep_view(&self) -> Sampling {
        *self
    }
}

impl Duplicate for Sampling {
    fn duplicate(&self) -> (r: Self) {
        *self
    }
}

/// Sampling nothing in particular.
pub open spec fn plain_sampling() -> Sampling {
    Sampling { temperature: None, rollout_id: None, completions: None }
}

/// A fresh ask: a rollout of its own at temperature one.
pub open spec fn rollout_sampling(id: u64) -> Sampling {
    Sampling {
        temperature: Some(Double { bits: 0x3ff0_0000_0000_0000 }),
        rollout_id: Some(id),
        completions: None,
    }
}

impl Default for Sampling {
    fn default() -> (r: Self)
        ensures
            r == plain_sampling(),
    {
        Sampling { temperature: None, rollout_id: None, completions: None }
    }
}

impl Sampling {
    /// A fresh ask: a rollout of its own at temperature one.
    pub fn rollout(id: u64) -> (r: Sampling)
        ensures
            r == rollout_sampling(id),
    {
        Sampling { temperature: Some(Double::one()), rollout_id: Some(id), completions: None }
    }
}

/// One predictor inside a program, under the name the program gives it.
#[derive(Debug)]
pub struct NamedPredictor {
    pub name: String,
    pub signature: Signature,
    pub demos: Vec<Example>,
    pub config: Sampling,
    /// Advice from an earlier attempt, shown on the next one.
    pub hint: Option<String>,
    /// The model this predictor is pinned to, as the settings that state it, each value in JSON.
    pub lm: Option<Vec<(String, String)>>,
}

/// What a [`NamedPredictor`] holds.
#[verifier::ext_equal]
pub struct PredictorModel {
    pub name: Seq<char>,
    pub signature: SignatureModel,
    pub demos: Seq<ExampleModel>,
    pub config: Sampling,
    pub hint: Option<Seq<char>>,
    pub lm: Option<Seq<(Seq<char>, Seq<char>)>>,
}

impl PredictorModel {
    pub open spec fn with_demos(self, demos: Seq<ExampleModel>) -> PredictorModel {
        PredictorModel { demos, ..self }
    }

    pub open spec fn with_instructions(self, instructions: Seq<char>) -> PredictorModel {
        PredictorModel { signature: SignatureModel { instructions, ..self.signature }, ..self }
    }

    pub open spec fn with_config(self, config: Sampling) -> PredictorModel {
        PredictorModel { config, ..self }
    }
}

impl DeepView for NamedPredictor {
    type V = PredictorModel;

    open spec fn deep_view(&self) -> PredictorModel {
        PredictorModel {
            name: self.name@,
            signature: self.signature.deep_view(),
            demos: self.demos.deep_view(),
            config: self.config,
            hint: self.hint.deep_view(),
            lm: self.lm.deep_view(),
        }
    }
}

impl Duplicate for NamedPredictor {
    fn duplicate(&self) -> (r: Self) {
        NamedPredictor {
            name: self.name.clone(),
            signature: self.signature.duplicate(),
            demos: self.demos.duplicate(),
            config: self.config,
            hint: self.hint.duplicate(),
            lm: self.lm.duplicate(),
        }
    }
}

/// One piece of generated code inside a program, under the name the program gives it.
#[derive(Debug)]
pub struct NamedFlex {
    pub name: String,
    /// The module's source.
    pub source: String,
}

/// What a [`NamedFlex`] holds.
#[verifier::ext_equal]
pub struct FlexModel {
    pub name: Seq<char>,
    pub source: Seq<char>,
}

impl DeepView for NamedFlex {
    type V = FlexModel;

    open spec fn deep_view(&self) -> FlexModel {
        FlexModel { name: self.name@, source: self.source@ }
    }
}

/// A program: its predictors, in the order a walk over it meets them.
#[derive(Debug)]
pub struct Program {
    pub predictors: Vec<NamedPredictor>,
}

impl DeepView for Program {
    type V = Seq<PredictorModel>;

    open spec fn deep_view(&self) -> Seq<PredictorModel> {
        self.predictors.deep_view()
    }
}

impl Duplicate for Program {
    fn duplicate(&self) -> (r: Self) {
        Program { predictors: self.predictors.duplicate() }
    }
}

/// Every predictor sampled the same way.
pub open spec fn all_sampled(program: Seq<PredictorModel>, config: Sampling) -> Seq<
    PredictorModel,
> {
    Seq::new(program.len(), |i: int| program[i].with_config(config))
}

/// Every predictor without demos.
pub open spec fn all_cleared(program: Seq<PredictorModel>) -> Seq<PredictorModel> {
    Seq::new(program.len(), |i: int| program[i].with_demos(Seq::empty()))
}

impl Program {
    /// How many predictors there are.
    pub fn len(&self) -> (r: usize)
        ensures
            r == self.deep_view().len(),
    {
        self.predictors.len()
    }

    /// Replaces one predictor's demos.
    pub fn set_demos(&mut self, index: usize, demos: Vec<Example>)
        requires
            index < old(self).deep_view().len(),
        ensures
            final(self).deep_view() == old(self).deep_view().update(
                index as int,
                old(self).deep_view()[index as int].with_demos(demos.deep_view()),
            ),
    {
        self.predictors[index].demos = demos;
        proof {
            assert(self.deep_view() =~= old(self).deep_view().update(
                index as int,
                old(self).deep_view()[index as int].with_demos(demos.deep_view()),
            ));
        }
    }

    /// Replaces one predictor's instructions.
    pub fn set_instruction(&mut self, index: usize, instruction: &str)
        requires
            index < old(self).deep_view().len(),
        ensures
            final(self).deep_view() == old(self).deep_view().update(
                index as int,
                old(self).deep_view()[index as int].with_instructions(instruction@),
            ),
    {
        self.predictors[index].signature.instructions = instruction.to_owned();
        proof {
            assert(self.deep_view() =~= old(self).deep_view().update(
                index as int,
                old(self).deep_view()[index as int].with_instructions(instruction@),
            ));
        }
    }

    /// Asks every predictor to sample this way.
    pub fn set_config(&mut self, config: Sampling)
        ensures
            final(self).deep_view() == all_sampled(old(self).deep_view(), config),
    {
        let mut i: usize = 0;
        while i < self.predictors.len()
            invariant
                i <= self.deep_view().len(),
                self.deep_view().len() == old(self).deep_view().len(),
                forall|j: int|
                    0 <= j < self.deep_view().len() ==> self.deep_view()[j] == (if j < i {
                        old(self).deep_view()[j].with_config(config)
                    } else {
                        old(self).deep_view()[j]
                    }),
            decreases self.deep_view().len() - i,
        {
            let ghost was = self.deep_view();
            self.predictors[i].config = config;
            proof {
                assert(self.deep_view() =~= was.update(i as int, was[i as int].with_config(config)));
            }
            i = i + 1;
        }
        proof {
            assert(self.deep_view() =~= all_sampled(old(self).deep_view(), config));
        }
    }

    /// Leaves every predictor without demos.
    pub fn clear_demos(&mut self)
        ensures
            final(self).deep_view() == all_cleared(old(self).deep_view()),
    {
        let mut i: usize = 0;
        while i < self.predictors.len()
            invariant
                i <= self.deep_view().len(),
                self.deep_view().len() == old(self).deep_view().len(),
                forall|j: int|
                    0 <= j < self.deep_view().len() ==> self.deep_view()[j] == (if j < i {
                        old(self).deep_view()[j].with_demos(Seq::empty())
                    } else {
                        old(self).deep_view()[j]
                    }),
            decreases self.deep_view().len() - i,
        {
            let none: Vec<Example> = Vec::new();
            proof {
                assert(none.deep_view() =~= Seq::empty());
            }
            self.set_demos(i, none);
            i = i + 1;
        }
        proof {
            assert(self.deep_view() =~= all_cleared(old(self).deep_view()));
        }
    }
}

/// Setting how a program samples reaches every predictor and changes nothing else of any; clearing
/// its demos likewise leaves none with a demo and everything else as it was.
pub proof fn law_a_setting_reaches_every_predictor(
    program: Seq<PredictorModel>,
    config: Sampling,
    i: int,
)
    requires
        0 <= i < program.len(),
    ensures
        all_sampled(program, config).len() == program.len(),
        all_sampled(program, config)[i].config == config,
        all_sampled(program, config)[i].name == program[i].name,
        all_sampled(program, config)[i].signature == program[i].signature,
        all_sampled(program, config)[i].demos == program[i].demos,
        all_sampled(program, config)[i].hint == program[i].hint,
        all_sampled(program, config)[i].lm == program[i].lm,
        all_cleared(program).len() == program.len(),
        all_cleared(program)[i].demos.len() == 0,
        all_cleared(program)[i].name == program[i].name,
        all_cleared(program)[i].signature == program[i].signature,
        all_cleared(program)[i].config == program[i].config,
        all_cleared(program)[i].hint == program[i].hint,
        all_cleared(program)[i].lm == program[i].lm,
{
}

/// Writing a predictor's demos or its instructions changes that alone: the fields it reads and
/// writes, and all else of it, stay.
pub proof fn law_a_write_changes_what_it_names(
    predictor: PredictorModel,
    demos: Seq<ExampleModel>,
    instructions: Seq<char>,
)
    ensures
        predictor.with_demos(demos).demos == demos,
        predictor.with_demos(demos).signature == predictor.signature,
        predictor.with_instructions(instructions).signature.instructions == instructions,
        predictor.with_instructions(instructions).signature.inputs == predictor.signature.inputs,
        predictor.with_instructions(instructions).signature.outputs == predictor.signature.outputs,
        predictor.with_instructions(instructions).demos == predictor.demos,
        predictor.with_demos(predictor.demos) == predictor,
        predictor.with_instructions(predictor.signature.instructions) == predictor,
        predictor.with_config(predictor.config) == predictor,
        predictor.with_instructions(instructions).with_demos(demos) == predictor.with_demos(
            demos,
        ).with_instructions(instructions),
{
}

/// Two rollouts are told apart by their numbers, and each is sampled at temperature one.
pub proof fn law_rollouts_are_told_apart(a: u64, b: u64)
    ensures
        a != b ==> rollout_sampling(a).rollout_id != rollout_sampling(b).rollout_id,
        rollout_sampling(a) != plain_sampling(),
        rollout_sampling(a).temperature is Some && rollout_sampling(a).temperature->0.bits
            == 0x3ff0_0000_0000_0000,
{
}

} // verus!
