//! Several programs answering together: which of them are asked, what their predictors are called,
//! and what their answers come to where nothing reduces them.
use vstd::prelude::*;
use vstd::string::StringExecFns;
use crate::duplicate::{append, Duplicate};
use crate::example::{Example, ExampleModel, Prediction, PredictionModel, Value, ValueModel};
use crate::observe::{as_json, json_object};
use crate::optimize::draw::is_sample;
use crate::program::{NamedPredictor, PredictorModel, Program};
use crate::text::{decimal, decimal_text, join, joined};

verus! {

/// How an ensemble is put together.
#[derive(Clone, Copy, Debug, PartialEq, Eq, Structural)]
pub struct Ensemble {
    /// How many programs answer a call, where not all of them.
    pub size: Option<usize>,
    /// The seed the draws start from.
    pub seed: u64,
}

impl Ensemble {
    /// Every program answers.
    pub fn new() -> (r: Ensemble)
        ensures
            r == (Ensemble { size: None, seed: 0 }),
    {
        Ensemble { size: None, seed: 0 }
    }

    /// So many programs answer each call, drawn without replacement.
    pub fn size(self, size: usize) -> (r: Ensemble)
        ensures
            r == (Ensemble { size: Some(size), ..self }),
    {
        Ensemble { size: Some(size), ..self }
    }

    /// The seed the draws start from.
    pub fn seed(self, seed: u64) -> (r: Ensemble)
        ensures
            r == (Ensemble { seed, ..self }),
    {
        Ensemble { seed, ..self }
    }

    /// The programs as one.
    pub fn compile(self, programs: Vec<Program>) -> (r: Ensembled)
        ensures
            r.deep_view() == (EnsembledModel {
                programs: programs.deep_view(),
                size: self.size,
            }),
    {
        Ensembled { programs, size: self.size }
    }
}

/// Several programs as one.
#[derive(Debug)]
pub struct Ensembled {
    pub programs: Vec<Program>,
    pub size: Option<usize>,
}

/// What an [`Ensembled`] holds.
#[verifier::ext_equal]
pub struct EnsembledModel {
    pub programs: Seq<Seq<PredictorModel>>,
    pub size: Option<usize>,
}

impl DeepView for Ensembled {
    type V = EnsembledModel;

    open spec fn deep_view(&self) -> EnsembledModel {
        EnsembledModel { programs: self.programs.deep_view(), size: self.size }
    }
}

/// A member's predictor under the ensemble's name for it.
pub open spec fn member_predictor(predictor: PredictorModel, member: nat) -> PredictorModel {
    PredictorModel {
        name: "programs["@ + decimal(member) + "]."@ + predictor.name,
        ..predictor
    }
}

/// A member's predictors under the ensemble's names for them.
pub open spec fn member_predictors(program: Seq<PredictorModel>, member: nat) -> Seq<
    PredictorModel,
> {
    Seq::new(program.len(), |i: int| member_predictor(program[i], member))
}

/// Every member's predictors, in member order.
pub open spec fn all_predictors(programs: Seq<Seq<PredictorModel>>) -> Seq<PredictorModel>
    decreases programs.len(),
{
    if programs.len() == 0 {
        Seq::empty()
    } else {
        all_predictors(programs.drop_last()) + member_predictors(
            programs.last(),
            (programs.len() - 1) as nat,
        )
    }
}

impl EnsembledModel {
    /// What has to be drawn for one call: so many of so many, or nothing where all are asked.
    pub open spec fn draw(self) -> Option<(nat, nat)> {
        match self.size {
            Some(size) => Some((self.programs.len(), size as nat)),
            None => None,
        }
    }

    /// The members that answer a call: all of them, or those that were drawn.
    pub open spec fn asked(self, drawn: Seq<usize>) -> Seq<usize> {
        match self.size {
            Some(_) => drawn,
            None => Seq::new(self.programs.len(), |i: int| i as usize),
        }
    }
}

impl Ensembled {
    /// How many programs there are, whatever a call may sample from them.
    pub fn len(&self) -> (r: usize)
        ensures
            r == self.deep_view().programs.len(),
    {
        self.programs.len()
    }

    pub fn is_empty(&self) -> (r: bool)
        ensures
            r == (self.deep_view().programs.len() == 0),
    {
        self.programs.len() == 0
    }

    /// What has to be drawn for one call: a sample of so many out of so many.
    pub fn draw(&self) -> (r: Option<(usize, usize)>)
        ensures
            match r {
                Some((population, count)) => self.deep_view().draw() == Some(
                    (population as nat, count as nat),
                ),
                None => self.deep_view().draw() is None,
            },
    {
        match self.size {
            Some(size) => Some((self.programs.len(), size)),
            None => None,
        }
    }

    /// The members that answer a call, given what was drawn for it.
    pub fn asked(&self, drawn: &Vec<usize>) -> (r: Vec<usize>)
        requires
            self.size matches Some(size) ==> is_sample(
                drawn@,
                self.deep_view().programs.len(),
                size as nat,
            ),
        ensures
            r@ == self.deep_view().asked(drawn@),
            forall|i: int| 0 <= i < r@.len() ==> (#[trigger] r@[i]) < self.deep_view().programs.len(),
    {
        match self.size {
            Some(_) => {
                let mut r: Vec<usize> = Vec::new();
                while r.len() < drawn.len()
                    invariant
                        r@.len() <= drawn@.len(),
                        r@ =~= drawn@.take(r@.len() as int),
                    decreases drawn@.len() - r@.len(),
                {
                    r.push(drawn[r.len()]);
                }
                proof {
                    assert(r@ =~= drawn@);
                }
                r
            },
            None => {
                let mut r: Vec<usize> = Vec::new();
                while r.len() < self.programs.len()
                    invariant
                        r@.len() <= self.programs@.len(),
                        forall|i: int| 0 <= i < r@.len() ==> (#[trigger] r@[i]) == i,
                    decreases self.programs@.len() - r@.len(),
                {
                    r.push(r.len());
                }
                proof {
                    assert(r@ =~= Seq::new(self.programs@.len(), |i: int| i as usize));
                }
                r
            },
        }
    }

    /// Every member's predictors, each under its member's number, so that two members' predictors
    /// of one name stay apart.
    pub fn named_predictors(&self) -> (r: Vec<NamedPredictor>)
        ensures
            r.deep_view() == all_predictors(self.deep_view().programs),
    {
        let ghost members = self.deep_view().programs;
        let mut r: Vec<NamedPredictor> = Vec::new();
        let mut m: usize = 0;
        proof {
            assert(r.deep_view() =~= all_predictors(members.take(0)));
        }
        while m < self.programs.len()
            invariant
                m <= self.programs@.len(),
                members == self.deep_view().programs,
                r.deep_view() == all_predictors(members.take(m as int)),
            decreases self.programs@.len() - m,
        {
            let program = &self.programs[m];
            let ghost here = program.deep_view();
            let ghost before = r.deep_view();
            let ghost added = member_predictors(here, m as nat);
            let mut i: usize = 0;
            proof {
                assert(before + added.take(0) =~= before);
                assert(members[m as int] == here);
            }
            while i < program.predictors.len()
                invariant
                    i <= program.predictors@.len(),
                    here == program.deep_view(),
                    added == member_predictors(here, m as nat),
                    r.deep_view() == before + added.take(i as int),
                decreases program.predictors@.len() - i,
            {
                let mut predictor = program.predictors[i].duplicate();
                let mut name: String = "programs[".to_owned();
                name.append(decimal_text(m).as_str());
                name.append("].");
                name.append(predictor.name.as_str());
                predictor.name = name;
                proof {
                    assert(here[i as int] == program.predictors@[i as int].deep_view());
                    assert(predictor.deep_view() == added[i as int]);
                }
                append(&mut r, predictor);
                proof {
                    assert(before + added.take(i + 1) =~= (before + added.take(i as int)).push(
                        added[i as int],
                    ));
                }
                i = i + 1;
            }
            proof {
                assert(added.take(i as int) =~= added);
                assert(members.take(m + 1).drop_last() =~= members.take(m as int));
            }
            m = m + 1;
        }
        proof {
            assert(members.take(m as int) =~= members);
        }
        r
    }
}

/// The answers of a call as one JSON array of their fields.
pub open spec fn json_list(answers: Seq<PredictionModel>) -> Seq<char> {
    "["@ + joined(
        Seq::new(answers.len(), |i: int| json_object(answers[i].example)),
        ","@,
    ) + "]"@
}

/// Every answer of a call under the one field `outputs`, where nothing reduces them. `repr` is how
/// that list prints.
pub fn listed(answers: &Vec<Prediction>, repr: &str) -> (r: Prediction)
    ensures
        r.deep_view() == (PredictionModel {
            example: ExampleModel {
                fields: seq![
                    (
                        "outputs"@,
                        ValueModel::Other { json: json_list(answers.deep_view()), repr: repr@ },
                    ),
                ],
                input_keys: None,
            },
            completion: Seq::empty(),
        }),
{
    let ghost objects = Seq::new(
        answers.deep_view().len(),
        |i: int| json_object(answers.deep_view()[i].example),
    );
    let mut parts: Vec<String> = Vec::new();
    let mut i: usize = 0;
    while i < answers.len()
        invariant
            i <= answers@.len(),
            objects == Seq::new(
                answers.deep_view().len(),
                |i: int| json_object(answers.deep_view()[i].example),
            ),
            parts.deep_view() == objects.take(i as int),
        decreases answers@.len() - i,
    {
        let part = as_json(&answers[i].example);
        proof {
            assert(answers.deep_view()[i as int] == answers@[i as int].deep_view());
            assert(objects.take(i + 1) =~= objects.take(i as int).push(part@));
        }
        append(&mut parts, part);
        i = i + 1;
    }
    proof {
        assert(objects.take(i as int) =~= objects);
    }
    let mut json: String = "[".to_owned();
    json.append(join(&parts, ",").as_str());
    json.append("]");
    let outputs = Value::Other { json, repr: repr.to_owned() };
    let mut example = Example::new();
    example.set("outputs", outputs);
    let r = Prediction::new(example, "");
    proof {
        reveal_strlit("");
        assert(r.deep_view().completion =~= Seq::empty());
        assert(r.deep_view().example.fields =~= seq![
            (
                "outputs"@,
                ValueModel::Other { json: json_list(answers.deep_view()), repr: repr@ },
            ),
        ]);
    }
    r
}

/// Nobody answers twice: the members asked are distinct, and with a size there are exactly that
/// many.
pub proof fn law_nobody_is_asked_twice(
    ensemble: EnsembledModel,
    drawn: Seq<usize>,
    i: int,
    j: int,
)
    requires
        ensemble.programs.len() <= usize::MAX,
        ensemble.size matches Some(size) ==> is_sample(
            drawn,
            ensemble.programs.len(),
            size as nat,
        ),
        0 <= i < j < ensemble.asked(drawn).len(),
    ensures
        ensemble.asked(drawn)[i] != ensemble.asked(drawn)[j],
        ensemble.size matches Some(size) ==> ensemble.asked(drawn).len() == size,
        ensemble.size is None ==> ensemble.asked(drawn).len() == ensemble.programs.len(),
{
}

/// With no size every member is asked, in order; with one, exactly the members that were drawn.
pub proof fn law_every_member_is_asked_without_a_size(
    ensemble: EnsembledModel,
    drawn: Seq<usize>,
    i: int,
)
    requires
        ensemble.programs.len() <= usize::MAX,
    ensures
        ensemble.size is Some ==> ensemble.asked(drawn) == drawn,
        ensemble.size is None && 0 <= i < ensemble.programs.len() ==> ensemble.asked(drawn)[i] == i,
        ensemble.size is None ==> ensemble.asked(drawn).len() == ensemble.programs.len(),
        ensemble.size matches Some(size) ==> ensemble.draw() == Some(
            (ensemble.programs.len(), size as nat),
        ),
        ensemble.size is None ==> ensemble.draw() is None,
{
}

/// An ensemble walks every predictor of every member, a member more adding its predictors behind
/// the others, each as it is but for a name that says whose it is.
pub proof fn law_every_members_predictors_are_walked(
    programs: Seq<Seq<PredictorModel>>,
    member: Seq<PredictorModel>,
    k: int,
)
    ensures
        ({
            let before = all_predictors(programs);
            let all = all_predictors(programs.push(member));
            &&& all_predictors(Seq::empty()).len() == 0
            &&& all.len() == before.len() + member.len()
            &&& all.take(before.len() as int) == before
            &&& 0 <= k < member.len() ==> all[before.len() + k] == PredictorModel {
                name: "programs["@ + decimal(programs.len()) + "]."@ + member[k].name,
                ..member[k]
            }
        }),
{
    assert(programs.push(member).drop_last() =~= programs);
    assert(all_predictors(programs.push(member)).take(all_predictors(programs).len() as int)
        =~= all_predictors(programs));
}

/// Every answer is in the list, in order: with one answer more, its fields stand at the end as an
/// object of their own, behind a comma where there are others.
pub proof fn law_every_answer_is_listed(answers: Seq<PredictionModel>, answer: PredictionModel)
    ensures
        ({
            let objects = Seq::new(answers.len(), |i: int| json_object(answers[i].example));
            let inside = joined(objects, ","@);
            &&& answers.len() == 0 ==> json_list(answers) == "["@ + "]"@
            &&& json_list(answers) == "["@ + inside + "]"@
            &&& json_list(answers.push(answer)) == "["@ + (if answers.len() == 0 {
                json_object(answer.example)
            } else {
                inside + ","@ + json_object(answer.example)
            }) + "]"@
        }),
{
    let objects = Seq::new(answers.len(), |i: int| json_object(answers[i].example));
    let longer = Seq::new(
        answers.push(answer).len(),
        |i: int| json_object(answers.push(answer)[i].example),
    );
    assert(longer =~= objects.push(json_object(answer.example)));
    crate::text::law_one_part_more_is_joined_behind(objects, json_object(answer.example), ","@);
    if answers.len() == 0 {
        assert(joined(objects, ","@) =~= Seq::empty());
        assert("["@ + joined(objects, ","@) + "]"@ =~= "["@ + "]"@);
    }
}

} // verus!
