//! Demos a program earned rather than demos it was handed.
//!
//! A teacher runs the trainset, a metric scores each attempt, and the attempts that pass become
//! the student's demos. The model calls and the metric are the caller's; what is decided here is
//! which example is attempted next and how the teacher is shown it, what an attempt earns, when
//! the walk ends, and which demos each predictor of the student is left with.
use vstd::prelude::*;
use vstd::string::StringExecFns;
use crate::double::{exceeds, is_nan, is_zero, reaches, Double};
use crate::duplicate::{append, append_all, Duplicate};
use crate::entries::{
    distinct, has, insert, law_put_keeps_distinct, law_put_then_lookup, lemma_everything_passes,
    lemma_slot, lookup, put, slot,
};
use crate::example::{Example, ExampleModel, Prediction, Value, ValueModel};
use crate::module::trace::{OutputsModel, StepModel, TraceStep};
use crate::optimize::draw::{is_sample, least, lesser, pick, picked};
use crate::optimize::earned::{Bootstrapped, BootstrappedModel, Solved, SolvedModel};
use crate::optimize::labeled::{draws_for, labeled, LabeledFewShot};
use crate::program::{rollout_sampling, NamedPredictor, PredictorModel, Program, Sampling};
use crate::text::{shown_name, show_name, decimal, decimal_text, same_text};

verus! {

/// Keeps only the demos the program can actually solve.
#[derive(Clone, Copy, Debug, PartialEq, Eq, Structural)]
pub struct BootstrapFewShot {
    /// Whether a metric scores the attempts. Without one every attempt that ran is kept.
    pub metric: bool,
    /// Read the metric's score against this bar rather than for being anything but zero. A bar at
    /// zero is no bar.
    pub metric_threshold: Option<Double>,
    /// Stop once this many examples have been solved.
    pub max_bootstrapped_demos: usize,
    /// The demo budget per predictor: bootstrapped demos are spent from it first, and labelled
    /// examples fill what is left.
    pub max_labeled_demos: usize,
    /// How many times one example may be attempted before the walk moves on.
    pub max_rounds: usize,
    /// How many failures the walk absorbs before giving up.
    pub max_errors: usize,
}

/// Four solved examples, sixteen demos, one round, ten failures.
pub open spec fn configured(metric: bool) -> BootstrapFewShot {
    BootstrapFewShot {
        metric,
        metric_threshold: None,
        max_bootstrapped_demos: 4,
        max_labeled_demos: 16,
        max_rounds: 1,
        max_errors: 10,
    }
}

/// How a program and its teacher fail to fit each other.
#[derive(Debug)]
#[allow(inconsistent_fields)]
pub enum ShapeMismatch {
    /// They have different numbers of predictors.
    Count { student: usize, teacher: usize },
    /// Their predictors go by different names.
    Name { student: String, teacher: String },
    /// A predictor's signatures differ.
    Signature { predictor: String },
}

/// The entries with every one of `more` written in order.
pub open spec fn put_all(
    entries: Seq<(Seq<char>, ValueModel)>,
    more: Seq<(Seq<char>, ValueModel)>,
) -> Seq<(Seq<char>, ValueModel)>
    decreases more.len(),
{
    if more.len() == 0 {
        entries
    } else {
        put(put_all(entries, more.drop_last()), more.last().0, more.last().1)
    }
}

/// The names among a row's fields that it declares inputs, in its order.
pub open spec fn declared(inputs: ExampleModel) -> Seq<Seq<char>> {
    inputs.inputs().fields.map_values(|f: (Seq<char>, ValueModel)| f.0)
}

/// A demo the teacher earned: marked as such, then what it was asked and what it answered.
pub open spec fn augmented(inputs: ExampleModel, outputs: ExampleModel) -> ExampleModel {
    ExampleModel {
        fields: put_all(
            put_all(
                seq![("augmented"@, crate::example::yes_model())],
                inputs.fields,
            ),
            outputs.fields,
        ),
        input_keys: Some(declared(inputs)),
    }
}

/// Whether a score is a success.
pub open spec fn accepted(threshold: Option<Double>, score: Double) -> bool {
    match threshold {
        Some(bar) => if is_zero(bar) {
            !is_zero(score)
        } else {
            reaches(score, bar)
        },
        None => !is_zero(score),
    }
}

/// The demos of the traced calls that were answered, under the predictors that made them.
pub open spec fn traced_demos(trace: Seq<StepModel>) -> Seq<(Seq<char>, ExampleModel)>
    decreases trace.len(),
{
    if trace.len() == 0 {
        Seq::empty()
    } else {
        let before = traced_demos(trace.drop_last());
        let step = trace.last();
        match step.outputs {
            OutputsModel::Answered(outputs) => before.push(
                (step.predictor, augmented(step.inputs, outputs)),
            ),
            OutputsModel::Unparsed(_) => before,
        }
    }
}

/// The demos without those that are the example itself.
pub open spec fn withheld(demos: Seq<ExampleModel>, example: ExampleModel) -> Seq<ExampleModel> {
    demos.filter(|d: ExampleModel| d != example)
}

/// The teacher as one attempt is shown it: without the example among its demos, and from the
/// second round on sampling a rollout of its own.
pub open spec fn shown_teacher(
    teacher: Seq<PredictorModel>,
    example: ExampleModel,
    round: nat,
) -> Seq<PredictorModel> {
    Seq::new(
        teacher.len(),
        |p: int|
            {
                let hidden = teacher[p].with_demos(withheld(teacher[p].demos, example));
                if round == 0 {
                    hidden
                } else {
                    hidden.with_config(rollout_sampling(round as u64))
                }
            },
    )
}

/// Adds copies of named values, each in its name's place or at the end.
fn put_each(entries: &mut Vec<(String, Value)>, more: &Vec<(String, Value)>)
    ensures
        final(entries).deep_view() == put_all(old(entries).deep_view(), more.deep_view()),
{
    let mut i: usize = 0;
    proof {
        assert(more.deep_view().take(0) =~= Seq::empty());
    }
    while i < more.len()
        invariant
            i <= more@.len(),
            entries.deep_view() == put_all(
                old(entries).deep_view(),
                more.deep_view().take(i as int),
            ),
        decreases more@.len() - i,
    {
        proof {
            assert(more.deep_view().take(i + 1).drop_last() =~= more.deep_view().take(i as int));
        }
        insert(entries, more[i].0.clone(), more[i].1.duplicate());
        i = i + 1;
    }
    proof {
        assert(more.deep_view().take(i as int) =~= more.deep_view());
    }
}

/// What was written last under a name is what the name reads as.
pub proof fn law_every_write_is_kept(
    entries: Seq<(Seq<char>, ValueModel)>,
    more: Seq<(Seq<char>, ValueModel)>,
    i: int,
)
    requires
        0 <= i < more.len(),
        forall|j: int| i < j < more.len() ==> (#[trigger] more[j]).0 != more[i].0,
    ensures
        lookup(put_all(entries, more), more[i].0) == Some(more[i].1),
    decreases more.len(),
{
    let before = more.drop_last();
    law_put_then_lookup(put_all(entries, before), more.last().0, more.last().1, more[i].0);
    if i < before.len() {
        assert(more[more.len() - 1].0 != more[i].0);
        assert(before[i] == more[i]);
        assert forall|j: int| i < j < before.len() implies (#[trigger] before[j]).0
            != before[i].0 by {
            assert(before[j] == more[j]);
        }
        law_every_write_is_kept(entries, before, i);
    }
}

/// A name that nothing was written under reads as it did.
pub proof fn law_no_other_name_is_written(
    entries: Seq<(Seq<char>, ValueModel)>,
    more: Seq<(Seq<char>, ValueModel)>,
    name: Seq<char>,
)
    requires
        forall|j: int| 0 <= j < more.len() ==> (#[trigger] more[j]).0 != name,
    ensures
        lookup(put_all(entries, more), name) == lookup(entries, name),
    decreases more.len(),
{
    if more.len() > 0 {
        let before = more.drop_last();
        assert(more[more.len() - 1].0 != name);
        assert forall|j: int| 0 <= j < before.len() implies (#[trigger] before[j]).0 != name by {
            assert(before[j] == more[j]);
        }
        law_no_other_name_is_written(entries, before, name);
        law_put_then_lookup(put_all(entries, before), more.last().0, more.last().1, name);
    }
}

/// Writing entries brings in no name but theirs, moves none that was there, and keeps names from
/// standing twice.
pub proof fn law_writes_bring_in_their_names_only(
    entries: Seq<(Seq<char>, ValueModel)>,
    more: Seq<(Seq<char>, ValueModel)>,
)
    ensures
        put_all(entries, more).len() >= entries.len(),
        forall|k: int|
            0 <= k < entries.len() ==> (#[trigger] put_all(entries, more)[k]).0 == entries[k].0,
        forall|k: int|
            entries.len() <= k < put_all(entries, more).len() ==> exists|j: int|
                0 <= j < more.len() && (#[trigger] more[j]).0 == (#[trigger] put_all(
                    entries,
                    more,
                )[k]).0,
        distinct(entries) ==> distinct(put_all(entries, more)),
    decreases more.len(),
{
    if more.len() > 0 {
        let before = more.drop_last();
        let held = put_all(entries, before);
        let all = put_all(entries, more);
        law_writes_bring_in_their_names_only(entries, before);
        lemma_slot(held, more.last().0);
        if distinct(entries) {
            law_put_keeps_distinct(held, more.last().0, more.last().1);
        }
        assert forall|k: int| entries.len() <= k < all.len() implies exists|j: int|
            0 <= j < more.len() && (#[trigger] more[j]).0 == (#[trigger] all[k]).0 by {
            if k < held.len() {
                assert(held[k].0 == all[k].0);
                let j = choose|j: int|
                    0 <= j < before.len() && (#[trigger] before[j]).0 == held[k].0;
                assert(more[j].0 == all[k].0);
            } else {
                assert(more[more.len() - 1].0 == all[k].0);
            }
        }
    }
}

/// Entries under new names are added behind the others, in their own order.
pub proof fn law_new_names_are_added_in_order(
    entries: Seq<(Seq<char>, ValueModel)>,
    more: Seq<(Seq<char>, ValueModel)>,
)
    requires
        distinct(entries + more),
    ensures
        put_all(entries, more) == entries + more,
    decreases more.len(),
{
    let all = entries + more;
    if more.len() > 0 {
        let before = more.drop_last();
        let shorter = entries + before;
        assert(shorter =~= all.drop_last());
        assert forall|i: int, j: int| 0 <= i < j < shorter.len() implies (#[trigger] shorter[i]).0
            != (#[trigger] shorter[j]).0 by {
            assert(all[i].0 != all[j].0);
        }
        law_new_names_are_added_in_order(entries, before);
        lemma_slot(shorter, more.last().0);
        if has(shorter, more.last().0) {
            let at = slot(shorter, more.last().0);
            assert(all[at].0 != all[all.len() - 1].0);
        }
        assert(shorter.push((more.last().0, more.last().1)) =~= all);
    } else {
        assert(all =~= entries);
    }
}

/// An earned demo holds the whole of the call: every output as it was answered, every input as it
/// was given unless an output goes by its name, the mark, and nothing else, no name twice. Where no
/// name stands twice to begin with, that is the mark, the inputs and the outputs in their order.
/// The inputs it declares are those of its fields that the call declared.
pub proof fn law_an_earned_demo_holds_the_whole_call(inputs: ExampleModel, outputs: ExampleModel)
    ensures
        ({
            let demo = augmented(inputs, outputs);
            let mark = ("augmented"@, ValueModel::Other { json: "true"@, repr: "True"@ });
            &&& distinct(outputs.fields) ==> forall|i: int|
                0 <= i < outputs.fields.len() ==> demo.get((#[trigger] outputs.fields[i]).0)
                    == Some(outputs.fields[i].1)
            &&& distinct(inputs.fields) ==> forall|i: int|
                0 <= i < inputs.fields.len() && (forall|j: int|
                    0 <= j < outputs.fields.len() ==> (#[trigger] outputs.fields[j]).0
                        != inputs.fields[i].0) ==> demo.get((#[trigger] inputs.fields[i]).0)
                    == Some(inputs.fields[i].1)
            &&& distinct(demo.fields)
            &&& demo.fields[0].0 == mark.0
            &&& forall|k: int|
                0 < k < demo.fields.len() ==> (exists|i: int|
                    0 <= i < inputs.fields.len() && (#[trigger] inputs.fields[i]).0
                        == demo.fields[k].0) || (exists|j: int|
                    0 <= j < outputs.fields.len() && (#[trigger] outputs.fields[j]).0
                        == (#[trigger] demo.fields[k]).0)
            &&& distinct(seq![mark] + inputs.fields + outputs.fields) ==> demo.fields == seq![mark]
                + inputs.fields + outputs.fields
            &&& demo.input_keys is Some
            &&& forall|name: Seq<char>| #[trigger]
                demo.input_keys->0.contains(name) <==> inputs.input_keys is Some
                    && inputs.input_keys->0.contains(name) && exists|i: int|
                    0 <= i < inputs.fields.len() && (#[trigger] inputs.fields[i]).0 == name
        }),
{
    let demo = augmented(inputs, outputs);
    let mark = ("augmented"@, crate::example::yes_model());
    let start = seq![mark];
    let given = put_all(start, inputs.fields);
    if distinct(outputs.fields) {
        assert forall|i: int| 0 <= i < outputs.fields.len() implies demo.get(
            (#[trigger] outputs.fields[i]).0,
        ) == Some(outputs.fields[i].1) by {
            law_every_write_is_kept(given, outputs.fields, i);
        }
    }
    if distinct(inputs.fields) {
        assert forall|i: int|
            0 <= i < inputs.fields.len() && (forall|j: int|
                0 <= j < outputs.fields.len() ==> (#[trigger] outputs.fields[j]).0
                    != inputs.fields[i].0) implies demo.get((#[trigger] inputs.fields[i]).0)
            == Some(inputs.fields[i].1) by {
            law_every_write_is_kept(start, inputs.fields, i);
            law_no_other_name_is_written(given, outputs.fields, inputs.fields[i].0);
        }
    }
    assert(distinct(start));
    law_writes_bring_in_their_names_only(start, inputs.fields);
    law_writes_bring_in_their_names_only(given, outputs.fields);
    assert(given[0].0 == start[0].0);
    assert(demo.fields[0].0 == given[0].0);
    assert forall|k: int| 0 < k < demo.fields.len() implies (exists|i: int|
        0 <= i < inputs.fields.len() && (#[trigger] inputs.fields[i]).0 == demo.fields[k].0) || (
    exists|j: int|
        0 <= j < outputs.fields.len() && (#[trigger] outputs.fields[j]).0 == (
        #[trigger] demo.fields[k]).0) by {
        if k < given.len() {
            assert(demo.fields[k].0 == given[k].0);
            let i = choose|i: int|
                0 <= i < inputs.fields.len() && (#[trigger] inputs.fields[i]).0 == given[k].0;
            assert(inputs.fields[i].0 == demo.fields[k].0);
        }
    }
    if distinct(start + inputs.fields + outputs.fields) {
        let front = start + inputs.fields;
        let all = front + outputs.fields;
        assert forall|i: int, j: int| 0 <= i < j < front.len() implies (#[trigger] front[i]).0 != (
        #[trigger] front[j]).0 by {
            assert(all[i].0 != all[j].0);
        }
        law_new_names_are_added_in_order(start, inputs.fields);
        law_new_names_are_added_in_order(front, outputs.fields);
    }
    assert forall|name: Seq<char>| #[trigger]
        demo.input_keys->0.contains(name) <==> inputs.input_keys is Some
            && inputs.input_keys->0.contains(name) && exists|i: int|
            0 <= i < inputs.fields.len() && (#[trigger] inputs.fields[i]).0 == name by {
        lemma_declared(inputs, name);
    }
}

proof fn lemma_declared(inputs: ExampleModel, name: Seq<char>)
    ensures
        declared(inputs).contains(name) <==> inputs.is_input(name) && exists|i: int|
            0 <= i < inputs.fields.len() && (#[trigger] inputs.fields[i]).0 == name,
{
    let keep = |f: (Seq<char>, ValueModel)| inputs.is_input(f.0);
    let kept = inputs.fields.filter(keep);
    if declared(inputs).contains(name) {
        let k = choose|k: int| 0 <= k < declared(inputs).len() && declared(inputs)[k] == name;
        assert(kept[k].0 == name);
        inputs.fields.lemma_filter_pred(keep, k);
        inputs.fields.lemma_filter_contains_rev(keep, kept[k]);
        let i = choose|i: int| 0 <= i < inputs.fields.len() && inputs.fields[i] == kept[k];
        assert(inputs.fields[i].0 == name);
    }
    if inputs.is_input(name) && exists|i: int|
        0 <= i < inputs.fields.len() && (#[trigger] inputs.fields[i]).0 == name {
        let i = choose|i: int|
            0 <= i < inputs.fields.len() && (#[trigger] inputs.fields[i]).0 == name;
        inputs.fields.lemma_filter_contains(keep, i);
        let k = choose|k: int| 0 <= k < kept.len() && kept[k] == inputs.fields[i];
        assert(declared(inputs)[k] == name);
    }
}

/// [`augmented`], built.
pub fn augmented_turn(inputs: &Example, outputs: &Example) -> (r: Example)
    ensures
        r.deep_view() == augmented(inputs.deep_view(), outputs.deep_view()),
{
    let mut fields: Vec<(String, Value)> = Vec::new();
    fields.push(("augmented".to_owned(), Value::yes()));
    proof {
        assert(fields.deep_view() =~= seq![("augmented"@, crate::example::yes_model())]);
    }
    put_each(&mut fields, &inputs.fields);
    put_each(&mut fields, &outputs.fields);
    let mut keys: Vec<String> = Vec::new();
    let ghost keep = |f: (Seq<char>, ValueModel)| inputs.deep_view().is_input(f.0);
    let ghost name = |f: (Seq<char>, ValueModel)| f.0;
    let ghost all = inputs.deep_view().fields;
    let mut i: usize = 0;
    proof {
        assert(all.take(0) =~= Seq::empty());
        reveal(Seq::filter);
        assert(keys.deep_view() =~= all.take(0).filter(keep).map_values(name));
    }
    while i < inputs.fields.len()
        invariant
            i <= inputs.fields@.len(),
            keep == (|f: (Seq<char>, ValueModel)| inputs.deep_view().is_input(f.0)),
            name == (|f: (Seq<char>, ValueModel)| f.0),
            all == inputs.deep_view().fields,
            keys.deep_view() == all.take(i as int).filter(keep).map_values(name),
        decreases inputs.fields@.len() - i,
    {
        proof {
            assert(all.take(i + 1).drop_last() =~= all.take(i as int));
            reveal(Seq::filter);
        }
        let ghost before = all.take(i as int).filter(keep);
        if inputs.is_input(inputs.fields[i].0.as_str()) {
            append(&mut keys, inputs.fields[i].0.clone());
            proof {
                assert(all.take(i + 1).filter(keep) == before.push(all[i as int]));
                assert(before.push(all[i as int]).map_values(name) =~= before.map_values(
                    name,
                ).push(all[i as int].0));
            }
        } else {
            proof {
                assert(all.take(i + 1).filter(keep) == before);
            }
        }
        i = i + 1;
    }
    proof {
        assert(all.take(i as int) =~= all);
        assert(keys.deep_view() == declared(inputs.deep_view()));
    }
    Example { fields, input_keys: Some(keys) }
}

/// [`withheld`], copied out.
fn withhold(demos: &Vec<Example>, example: &Example) -> (r: Vec<Example>)
    ensures
        r.deep_view() == withheld(demos.deep_view(), example.deep_view()),
{
    let mut r: Vec<Example> = Vec::new();
    let ghost keep = |d: ExampleModel| d != example.deep_view();
    let ghost all = demos.deep_view();
    let mut i: usize = 0;
    proof {
        assert(all.take(0) =~= Seq::empty());
        reveal(Seq::filter);
        assert(r.deep_view() =~= all.take(0).filter(keep));
    }
    while i < demos.len()
        invariant
            i <= demos@.len(),
            keep == (|d: ExampleModel| d != example.deep_view()),
            all == demos.deep_view(),
            r.deep_view() == all.take(i as int).filter(keep),
        decreases demos@.len() - i,
    {
        proof {
            assert(all.take(i + 1).drop_last() =~= all.take(i as int));
            reveal(Seq::filter);
        }
        if !demos[i].same(example) {
            append(&mut r, demos[i].duplicate());
        }
        i = i + 1;
    }
    proof {
        assert(all.take(i as int) =~= all);
    }
    r
}

impl BootstrapFewShot {
    /// Why a compile is refused: nothing is scored.
    pub fn refusal(&self, valset: bool) -> (r: Option<String>)
        ensures
            r.deep_view() == if valset {
                Some(
                    "BootstrapFewShot keeps the traces a teacher produced and never scores a candidate, so it has no valset to score on"@,
                )
            } else {
                None
            },
    {
        if valset {
            Some(
                "BootstrapFewShot keeps the traces a teacher produced and never scores a candidate, so it has no valset to score on".to_owned(),
            )
        } else {
            None
        }
    }

    /// Attempts are scored by a metric, and those it accepts are kept.
    pub fn new() -> (r: BootstrapFewShot)
        ensures
            r == configured(true),
    {
        BootstrapFewShot {
            metric: true,
            metric_threshold: None,
            max_bootstrapped_demos: 4,
            max_labeled_demos: 16,
            max_rounds: 1,
            max_errors: 10,
        }
    }

    /// Every attempt the teacher completed is kept.
    pub fn without_metric() -> (r: BootstrapFewShot)
        ensures
            r == configured(false),
    {
        BootstrapFewShot { metric: false, ..BootstrapFewShot::new() }
    }

    /// Whether a score is a success: it reaches the bar where there is one that is not zero, and
    /// is anything but zero otherwise.
    pub fn accepts(&self, score: Double) -> (r: bool)
        ensures
            r == accepted(self.metric_threshold, score),
    {
        match self.metric_threshold {
            Some(bar) => if bar.is_zero() {
                !score.is_zero()
            } else {
                score.reaches(bar)
            },
            None => !score.is_zero(),
        }
    }

    /// Shows the teacher labelled demos before it is asked to solve anything, unless the labelled
    /// budget is nothing.
    pub fn prime(
        &self,
        teacher: &mut Program,
        trainset: &Vec<Example>,
        draws: &Vec<Vec<usize>>,
    )
        requires
            self.max_labeled_demos > 0 ==> draws_for(
                (LabeledFewShot { k: self.max_labeled_demos, sample: true, seed: 0 }),
                old(teacher).deep_view().len(),
                trainset@.len(),
                draws.deep_view(),
            ),
        ensures
            final(teacher).deep_view() == if self.max_labeled_demos > 0 {
                labeled(
                    (LabeledFewShot { k: self.max_labeled_demos, sample: true, seed: 0 }),
                    old(teacher).deep_view(),
                    trainset.deep_view(),
                    draws.deep_view(),
                )
            } else {
                old(teacher).deep_view()
            },
    {
        if self.max_labeled_demos > 0 {
            LabeledFewShot::new(self.max_labeled_demos).compile(teacher, trainset, draws);
        }
    }

    /// The teacher as one attempt at an example is shown it.
    pub fn shown(&self, teacher: &Program, example: &Example, round: usize) -> (r: Program)
        ensures
            r.deep_view() == shown_teacher(
                teacher.deep_view(),
                example.deep_view(),
                round as nat,
            ),
    {
        let mut predictors: Vec<NamedPredictor> = Vec::new();
        let mut p: usize = 0;
        let ghost shown = shown_teacher(teacher.deep_view(), example.deep_view(), round as nat);
        proof {
            assert(predictors.deep_view() =~= shown.take(0));
        }
        while p < teacher.predictors.len()
            invariant
                p <= teacher.predictors@.len(),
                shown == shown_teacher(teacher.deep_view(), example.deep_view(), round as nat),
                predictors.deep_view() == shown.take(p as int),
            decreases teacher.predictors@.len() - p,
        {
            let mut predictor = teacher.predictors[p].duplicate();
            predictor.demos = withhold(&teacher.predictors[p].demos, example);
            if round > 0 {
                predictor.config = Sampling::rollout(round as u64);
            }
            proof {
                assert(predictor.deep_view() == shown[p as int]);
                assert(shown.take(p + 1) =~= shown.take(p as int).push(shown[p as int]));
            }
            append(&mut predictors, predictor);
            p = p + 1;
        }
        proof {
            assert(shown.take(p as int) =~= shown);
        }
        Program { predictors }
    }

    /// What an attempt that ran earned, or nothing where the metric did not accept it. A step that
    /// would not parse earns no demo.
    pub fn attempt(
        &self,
        inputs: &Example,
        prediction: &Prediction,
        trace: &Vec<TraceStep>,
        score: Double,
    ) -> (r: Option<Solved>)
        ensures
            match r {
                Some(solved) => {
                    &&& !self.metric || accepted(self.metric_threshold, score)
                    &&& solved.deep_view() == (SolvedModel {
                        program: augmented(
                            inputs.deep_view(),
                            prediction.deep_view().example,
                        ),
                        per_predictor: traced_demos(trace.deep_view()),
                    })
                },
                None => self.metric && !accepted(self.metric_threshold, score),
            },
    {
        if self.metric && !self.accepts(score) {
            return None;
        }
        let mut per_predictor: Vec<(String, Example)> = Vec::new();
        let mut i: usize = 0;
        let ghost steps = trace.deep_view();
        proof {
            assert(per_predictor.deep_view() =~= traced_demos(steps.take(0)));
        }
        while i < trace.len()
            invariant
                i <= trace@.len(),
                steps == trace.deep_view(),
                per_predictor.deep_view() == traced_demos(steps.take(i as int)),
            decreases trace@.len() - i,
        {
            proof {
                assert(steps.take(i + 1).drop_last() =~= steps.take(i as int));
            }
            let step = &trace[i];
            match step.outputs.answered() {
                Some(outputs) => {
                    let demo = augmented_turn(&step.inputs, outputs);
                    append(&mut per_predictor, (step.predictor.clone(), demo));
                },
                None => {},
            }
            i = i + 1;
        }
        proof {
            assert(steps.take(i as int) =~= steps);
        }
        Some(Solved { program: augmented_turn(inputs, &prediction.example), per_predictor })
    }
}

/// What came of one attempt.
#[derive(Clone, Copy, Debug, PartialEq, Eq, Structural)]
pub enum Attempted {
    /// The metric accepted it.
    Solved,
    /// It ran, and scored too low.
    Rejected,
    /// It failed, or the example declares no inputs.
    Failed,
}

/// How a walk stands.
#[derive(Clone, Copy, Debug, PartialEq, Eq, Structural)]
pub enum Progress {
    /// This example is to be attempted in this round.
    Attempting { index: usize, round: usize },
    /// The walk is over.
    Finished,
    /// The failures used the budget up, and the last of them is the answer.
    GaveUp,
}

/// A walk over the trainset in progress.
#[derive(Debug)]
pub struct Walk {
    pub settings: BootstrapFewShot,
    /// Which examples have been solved, one entry for each of the trainset.
    pub solved: Vec<bool>,
    pub kept: usize,
    pub errors: usize,
    pub progress: Progress,
}

/// What a [`Walk`] holds.
#[verifier::ext_equal]
pub struct WalkModel {
    pub settings: BootstrapFewShot,
    pub solved: Seq<bool>,
    pub kept: nat,
    pub errors: nat,
    pub progress: Progress,
}

impl DeepView for Walk {
    type V = WalkModel;

    open spec fn deep_view(&self) -> WalkModel {
        WalkModel {
            settings: self.settings,
            solved: self.solved@,
            kept: self.kept as nat,
            errors: self.errors as nat,
            progress: self.progress,
        }
    }
}

/// How many of the examples are solved.
pub open spec fn solved_count(solved: Seq<bool>) -> nat
    decreases solved.len(),
{
    if solved.len() == 0 {
        0
    } else {
        solved_count(solved.drop_last()) + if solved.last() {
            1nat
        } else {
            0nat
        }
    }
}

impl WalkModel {
    /// Where a walk goes that is done with the examples before `index`.
    pub open spec fn at_example(self, index: int) -> Progress {
        if index < self.solved.len() && self.kept < self.settings.max_bootstrapped_demos
            && self.settings.max_rounds > 0 {
            Progress::Attempting { index: index as usize, round: 0 }
        } else {
            Progress::Finished
        }
    }

    /// Where a walk goes after an unsuccessful round: the next round, or the next example.
    pub open spec fn past_round(self, index: int, round: int) -> Progress {
        if round + 1 < self.settings.max_rounds {
            Progress::Attempting { index: index as usize, round: (round + 1) as usize }
        } else {
            self.at_example(index + 1)
        }
    }

    /// A walk about to start.
    pub open spec fn started(settings: BootstrapFewShot, examples: nat) -> WalkModel {
        let idle = WalkModel {
            settings,
            solved: Seq::new(examples, |i: int| false),
            kept: 0,
            errors: 0,
            progress: Progress::Finished,
        };
        WalkModel { progress: idle.at_example(0), ..idle }
    }

    /// An attempt came back. A success ends the rounds for its example; a failure is charged to
    /// the budget, and ends the walk where it uses it up.
    pub open spec fn attempted(self, outcome: Attempted) -> WalkModel {
        match self.progress {
            Progress::Attempting { index, round } => match outcome {
                Attempted::Solved => {
                    let after = WalkModel {
                        solved: self.solved.update(index as int, true),
                        kept: self.kept + 1,
                        ..self
                    };
                    WalkModel { progress: after.at_example(index + 1), ..after }
                },
                Attempted::Rejected => WalkModel {
                    progress: self.past_round(index as int, round as int),
                    ..self
                },
                Attempted::Failed => WalkModel {
                    errors: self.errors + 1,
                    progress: if self.errors + 1 >= self.settings.max_errors {
                        Progress::GaveUp
                    } else {
                        self.past_round(index as int, round as int)
                    },
                    ..self
                },
            },
            _ => self,
        }
    }

    /// What holds between two attempts.
    pub open spec fn well_formed(self) -> bool {
        &&& self.solved.len() <= usize::MAX
        &&& self.kept == solved_count(self.solved)
        &&& self.kept <= self.settings.max_bootstrapped_demos
        &&& match self.progress {
            Progress::Attempting { index, round } => {
                &&& index < self.solved.len()
                &&& round < self.settings.max_rounds
                &&& self.kept < self.settings.max_bootstrapped_demos
                &&& self.kept <= index
                &&& self.errors < self.settings.max_errors || self.errors == 0
                &&& forall|i: int| index <= i < self.solved.len() ==> !(#[trigger] self.solved[i])
            },
            Progress::GaveUp => self.errors >= self.settings.max_errors,
            Progress::Finished => true,
        }
    }
}

proof fn lemma_solve_one(solved: Seq<bool>, index: int)
    requires
        0 <= index < solved.len(),
        !solved[index],
    ensures
        solved_count(solved.update(index, true)) == solved_count(solved) + 1,
    decreases solved.len(),
{
    let after = solved.update(index, true);
    if index == solved.len() - 1 {
        assert(after.drop_last() =~= solved.drop_last());
    } else {
        assert(after.drop_last() =~= solved.drop_last().update(index, true));
        lemma_solve_one(solved.drop_last(), index);
    }
}

proof fn lemma_none_solved(solved: Seq<bool>)
    requires
        forall|i: int| 0 <= i < solved.len() ==> !(#[trigger] solved[i]),
    ensures
        solved_count(solved) == 0,
    decreases solved.len(),
{
    if solved.len() > 0 {
        lemma_none_solved(solved.drop_last());
    }
}

impl Walk {
    /// A walk over a trainset of that many examples.
    pub fn begin(settings: BootstrapFewShot, examples: usize) -> (r: Walk)
        ensures
            r.deep_view() == WalkModel::started(settings, examples as nat),
            r.deep_view().well_formed(),
    {
        let mut solved: Vec<bool> = Vec::new();
        while solved.len() < examples
            invariant
                solved@.len() <= examples,
                solved@ =~= Seq::new(solved@.len(), |i: int| false),
            decreases examples - solved@.len(),
        {
            solved.push(false);
        }
        proof {
            lemma_none_solved(solved@);
        }
        let mut walk = Walk {
            settings,
            solved,
            kept: 0,
            errors: 0,
            progress: Progress::Finished,
        };
        walk.progress = walk.at_example(0);
        walk
    }

    fn at_example(&self, index: usize) -> (r: Progress)
        ensures
            r == self.deep_view().at_example(index as int),
    {
        if index < self.solved.len() && self.kept < self.settings.max_bootstrapped_demos
            && self.settings.max_rounds > 0 {
            Progress::Attempting { index, round: 0 }
        } else {
            Progress::Finished
        }
    }

    fn past_round(&self, index: usize, round: usize) -> (r: Progress)
        requires
            round < self.settings.max_rounds,
            index < self.solved@.len(),
        ensures
            r == self.deep_view().past_round(index as int, round as int),
    {
        if round + 1 < self.settings.max_rounds {
            Progress::Attempting { index, round: round + 1 }
        } else {
            let next: usize = if index < self.solved.len() {
                index + 1
            } else {
                index
            };
            self.at_example(next)
        }
    }

    /// An attempt came back.
    pub fn attempted(&mut self, outcome: Attempted)
        requires
            old(self).deep_view().well_formed(),
        ensures
            final(self).deep_view() == old(self).deep_view().attempted(outcome),
            final(self).deep_view().well_formed(),
    {
        match self.progress {
            Progress::Attempting { index, round } => {
                match outcome {
                    Attempted::Solved => {
                        proof {
                            lemma_solve_one(self.solved@, index as int);
                        }
                        self.solved[index] = true;
                        self.kept = self.kept + 1;
                        let next: usize = if index < self.solved.len() {
                            index + 1
                        } else {
                            index
                        };
                        self.progress = self.at_example(next);
                    },
                    Attempted::Rejected => {
                        self.progress = self.past_round(index, round);
                    },
                    Attempted::Failed => {
                        self.errors = self.errors + 1;
                        if self.errors >= self.settings.max_errors {
                            self.progress = Progress::GaveUp;
                        } else {
                            self.progress = self.past_round(index, round);
                        }
                    },
                }
            },
            _ => {},
        }
    }
}

/// The examples that were not solved, in trainset order.
pub open spec fn unsolved(trainset: Seq<ExampleModel>, solved: Seq<bool>) -> Seq<ExampleModel>
    decreases trainset.len(),
{
    if trainset.len() == 0 {
        Seq::empty()
    } else {
        let before = unsolved(trainset.drop_last(), solved);
        if solved[trainset.len() - 1] {
            before
        } else {
            before.push(trainset.last())
        }
    }
}

/// [`unsolved`], copied out.
pub fn unsolved_examples(trainset: &Vec<Example>, solved: &Vec<bool>) -> (r: Vec<Example>)
    requires
        trainset@.len() == solved@.len(),
    ensures
        r.deep_view() == unsolved(trainset.deep_view(), solved@),
{
    let mut r: Vec<Example> = Vec::new();
    let mut i: usize = 0;
    let ghost all = trainset.deep_view();
    proof {
        assert(r.deep_view() =~= unsolved(all.take(0), solved@));
    }
    while i < trainset.len()
        invariant
            i <= trainset@.len(),
            trainset@.len() == solved@.len(),
            all == trainset.deep_view(),
            r.deep_view() == unsolved(all.take(i as int), solved@),
        decreases trainset@.len() - i,
    {
        proof {
            assert(all.take(i + 1).drop_last() =~= all.take(i as int));
        }
        if !solved[i] {
            append(&mut r, trainset[i].duplicate());
        }
        i = i + 1;
    }
    proof {
        assert(all.take(i as int) =~= all);
    }
    r
}

/// The demos a predictor keeps of what was bootstrapped for it.
pub open spec fn kept_demos(
    settings: BootstrapFewShot,
    bootstrapped: BootstrappedModel,
    name: Seq<char>,
) -> Seq<ExampleModel> {
    let taught = bootstrapped.taught(name);
    taught.take(least(settings.max_bootstrapped_demos as nat, taught.len()) as int)
}

/// How many labelled demos a predictor has room for beside those.
pub open spec fn room(settings: BootstrapFewShot, kept: nat) -> nat {
    if kept >= settings.max_labeled_demos {
        0
    } else {
        (settings.max_labeled_demos - kept) as nat
    }
}

/// The labelled demos still to draw from when the predictor at `p` is filled: each predictor's
/// sample is what the next one draws from.
pub open spec fn raw_demos(
    program: Seq<PredictorModel>,
    bootstrapped: BootstrappedModel,
    draws: Seq<Seq<usize>>,
    p: nat,
) -> Seq<ExampleModel>
    decreases p,
{
    if p == 0 {
        bootstrapped.validation
    } else {
        picked(raw_demos(program, bootstrapped, draws, (p - 1) as nat), draws[p - 1])
    }
}

/// The predictor at `p` with its demos: the bootstrapped ones, then the labelled ones.
pub open spec fn trained_predictor(
    settings: BootstrapFewShot,
    program: Seq<PredictorModel>,
    bootstrapped: BootstrappedModel,
    draws: Seq<Seq<usize>>,
    p: int,
) -> PredictorModel {
    program[p].with_demos(
        kept_demos(settings, bootstrapped, program[p].name) + raw_demos(
            program,
            bootstrapped,
            draws,
            (p + 1) as nat,
        ),
    )
}

/// Whether the draws are what training asks a generator for: for each predictor a sample of what
/// the last one left, as large as there is room for.
#[verifier::opaque]
pub open spec fn training_draws(
    settings: BootstrapFewShot,
    program: Seq<PredictorModel>,
    bootstrapped: BootstrappedModel,
    draws: Seq<Seq<usize>>,
) -> bool {
    &&& draws.len() >= program.len()
    &&& forall|p: int|
        0 <= p < program.len() ==> is_sample(
            #[trigger] draws[p],
            raw_demos(program, bootstrapped, draws, p as nat).len(),
            least(
                room(settings, kept_demos(settings, bootstrapped, program[p].name).len()),
                raw_demos(program, bootstrapped, draws, p as nat).len(),
            ),
        )
}

proof fn lemma_training_draw(
    settings: BootstrapFewShot,
    program: Seq<PredictorModel>,
    bootstrapped: BootstrappedModel,
    draws: Seq<Seq<usize>>,
    p: int,
)
    requires
        training_draws(settings, program, bootstrapped, draws),
        0 <= p < program.len(),
    ensures
        draws.len() >= program.len(),
        is_sample(
            draws[p],
            raw_demos(program, bootstrapped, draws, p as nat).len(),
            least(
                room(settings, kept_demos(settings, bootstrapped, program[p].name).len()),
                raw_demos(program, bootstrapped, draws, p as nat).len(),
            ),
        ),
{
    reveal(training_draws);
}

impl BootstrapFewShot {
    /// How many positions are drawn for a predictor, out of how many, when it is filled.
    pub fn training_draw(&self, bootstrapped: &Bootstrapped, predictor: &str, left: usize) -> (r:
        usize)
        ensures
            r == least(
                room(
                    *self,
                    kept_demos(*self, bootstrapped.deep_view(), predictor@).len(),
                ),
                left as nat,
            ),
    {
        let kept = bootstrapped.earned(predictor, self.max_bootstrapped_demos);
        proof {
            assert(kept.deep_view().len() == kept@.len());
        }
        let space: usize = if kept.len() >= self.max_labeled_demos {
            0
        } else {
            self.max_labeled_demos - kept.len()
        };
        lesser(space, left)
    }

    /// Leaves every predictor of the student with its bootstrapped demos first and labelled ones
    /// to fill the budget, and answers with how many examples the walk solved.
    pub fn train(
        &self,
        student: &mut Program,
        bootstrapped: &Bootstrapped,
        walk: &Walk,
        draws: &Vec<Vec<usize>>,
    ) -> (r: usize)
        requires
            walk.settings == *self,
            walk.deep_view().well_formed(),
            training_draws(
                *self,
                old(student).deep_view(),
                bootstrapped.deep_view(),
                draws.deep_view(),
            ),
        ensures
            r == solved_count(walk.solved@),
            r <= self.max_bootstrapped_demos,
            final(student).deep_view() == Seq::new(
                old(student).deep_view().len(),
                |p: int|
                    trained_predictor(
                        *self,
                        old(student).deep_view(),
                        bootstrapped.deep_view(),
                        draws.deep_view(),
                        p,
                    ),
            ),
    {
        let ghost program = old(student).deep_view();
        let ghost earned = bootstrapped.deep_view();
        let ghost drawn = draws.deep_view();
        let mut raw: Vec<Example> = bootstrapped.validation.duplicate();
        let mut p: usize = 0;
        while p < student.len()
            invariant
                p <= student.deep_view().len(),
                program == old(student).deep_view(),
                earned == bootstrapped.deep_view(),
                drawn == draws.deep_view(),
                student.deep_view().len() == program.len(),
                training_draws(*self, program, earned, drawn),
                raw.deep_view() == raw_demos(program, earned, drawn, p as nat),
                forall|j: int|
                    0 <= j < program.len() ==> student.deep_view()[j] == (if j < p {
                        trained_predictor(*self, program, earned, drawn, j)
                    } else {
                        program[j]
                    }),
            decreases student.deep_view().len() - p,
        {
            proof {
                assert(student.deep_view()[p as int] == program[p as int]);
            }
            let augmented = bootstrapped.earned(
                student.predictors[p].name.as_str(),
                self.max_bootstrapped_demos,
            );
            proof {
                assert(augmented.deep_view().len() == augmented@.len());
                lemma_training_draw(*self, program, earned, drawn, p as int);
                crate::optimize::mipro::minibatch::lemma_params_view(draws@[p as int]);
            }
            raw = pick(&raw, &draws[p]);
            let mut demos = augmented;
            append_all(&mut demos, &raw);
            student.set_demos(p, demos);
            p = p + 1;
        }
        proof {
            assert(student.deep_view() =~= Seq::new(
                program.len(),
                |p: int| trained_predictor(*self, program, earned, drawn, p),
            ));
        }
        walk.kept
    }
}

impl ShapeMismatch {
    /// The mismatch in words.
    pub open spec fn text(self) -> Seq<char> {
        match self {
            ShapeMismatch::Count { student, teacher } =>
                "student and teacher must have the same number of predictors, got "@ + decimal(
                student as nat,
            ) + " and "@ + decimal(teacher as nat),
            ShapeMismatch::Name { student, teacher } =>
                "student and teacher must have the same program structure, got predictor "@
                + shown_name(student@) + " against "@ + shown_name(teacher@),
            ShapeMismatch::Signature { predictor } =>
                "student and teacher must have the same signatures, and differ at predictor "@
                + shown_name(predictor@),
        }
    }

    /// The mismatch in words.
    pub fn message(&self) -> (r: String)
        ensures
            r@ == self.text(),
    {
        match self {
            ShapeMismatch::Count { student, teacher } => {
                let mut r: String =
                    "student and teacher must have the same number of predictors, got ".to_owned();
                r.append(decimal_text(*student).as_str());
                r.append(" and ");
                r.append(decimal_text(*teacher).as_str());
                r
            },
            ShapeMismatch::Name { student, teacher } => {
                let mut r: String =
                    "student and teacher must have the same program structure, got predictor ".to_owned();
                r.append(show_name(student.as_str()).as_str());
                r.append(" against ");
                r.append(show_name(teacher.as_str()).as_str());
                r
            },
            ShapeMismatch::Signature { predictor } => {
                let mut r: String =
                    "student and teacher must have the same signatures, and differ at predictor ".to_owned();
                r.append(show_name(predictor.as_str()).as_str());
                r
            },
        }
    }
}

/// Whether the predictors at `i` are named and asked the same.
pub open spec fn twins(
    student: Seq<PredictorModel>,
    teacher: Seq<PredictorModel>,
    i: int,
) -> bool {
    student[i].name == teacher[i].name && student[i].signature == teacher[i].signature
}

/// Refuses a teacher that is not the student's twin: whose predictors differ in number, in name or
/// in signature, whichever a walk over them meets first.
pub fn same_shape(student: &Program, teacher: &Program) -> (r: Result<(), ShapeMismatch>)
    ensures
        ({
            let s = student.deep_view();
            let t = teacher.deep_view();
            match r {
                Ok(()) => s.len() == t.len() && forall|i: int|
                    0 <= i < s.len() ==> #[trigger] twins(s, t, i),
                Err(ShapeMismatch::Count { student: a, teacher: b }) => s.len() != t.len() && a
                    == s.len() && b == t.len(),
                Err(ShapeMismatch::Name { student: a, teacher: b }) => s.len() == t.len()
                    && exists|i: int|
                    {
                        &&& 0 <= i < s.len()
                        &&& a@ == (#[trigger] s[i]).name
                        &&& b@ == t[i].name
                        &&& s[i].name != t[i].name
                        &&& forall|j: int| 0 <= j < i ==> #[trigger] twins(s, t, j)
                    },
                Err(ShapeMismatch::Signature { predictor: a }) => s.len() == t.len() && exists|
                    i: int,
                |
                    {
                        &&& 0 <= i < s.len()
                        &&& a@ == (#[trigger] s[i]).name
                        &&& s[i].name == t[i].name
                        &&& s[i].signature != t[i].signature
                        &&& forall|j: int| 0 <= j < i ==> #[trigger] twins(s, t, j)
                    },
            }
        }),
{
    if student.len() != teacher.len() {
        return Err(ShapeMismatch::Count { student: student.len(), teacher: teacher.len() });
    }
    let ghost s = student.deep_view();
    let ghost t = teacher.deep_view();
    let mut i: usize = 0;
    while i < student.predictors.len()
        invariant
            i <= student.predictors@.len(),
            s == student.deep_view(),
            t == teacher.deep_view(),
            s.len() == t.len(),
            forall|j: int| 0 <= j < i ==> #[trigger] twins(s, t, j),
        decreases student.predictors@.len() - i,
    {
        let a = &student.predictors[i];
        let b = &teacher.predictors[i];
        proof {
            assert(s[i as int] == a.deep_view());
            assert(t[i as int] == b.deep_view());
        }
        if !same_text(a.name.as_str(), b.name.as_str()) {
            return Err(
                ShapeMismatch::Name { student: a.name.clone(), teacher: b.name.clone() },
            );
        }
        if !a.signature.equals(&b.signature) {
            return Err(ShapeMismatch::Signature { predictor: a.name.clone() });
        }
        i = i + 1;
    }
    Ok(())
}

/// Bootstrapped demos are spent from the labelled budget: where they leave room the two together
/// never exceed it, and where they do not no labelled demo is added.
pub proof fn law_the_labelled_budget_is_shared(
    settings: BootstrapFewShot,
    program: Seq<PredictorModel>,
    bootstrapped: BootstrappedModel,
    draws: Seq<Seq<usize>>,
    p: int,
)
    requires
        training_draws(settings, program, bootstrapped, draws),
        0 <= p < program.len(),
    ensures
        ({
            let kept = kept_demos(settings, bootstrapped, program[p].name).len();
            let demos = trained_predictor(settings, program, bootstrapped, draws, p).demos.len();
            &&& kept <= settings.max_bootstrapped_demos
            &&& kept >= settings.max_labeled_demos ==> demos == kept
            &&& kept < settings.max_labeled_demos ==> demos <= settings.max_labeled_demos
        }),
{
    lemma_training_draw(settings, program, bootstrapped, draws, p);
}

/// The labelled pool never grows from one predictor to the next.
pub proof fn law_the_labelled_pool_shrinks(
    settings: BootstrapFewShot,
    program: Seq<PredictorModel>,
    bootstrapped: BootstrappedModel,
    draws: Seq<Seq<usize>>,
    p: int,
)
    requires
        training_draws(settings, program, bootstrapped, draws),
        0 <= p < program.len(),
    ensures
        raw_demos(program, bootstrapped, draws, (p + 1) as nat).len() <= raw_demos(
            program,
            bootstrapped,
            draws,
            p as nat,
        ).len(),
{
    lemma_training_draw(settings, program, bootstrapped, draws, p);
}

/// The first round asks the teacher the way it already asks, and the example being solved is never
/// among the demos the teacher is shown.
pub proof fn law_the_example_is_withheld_from_its_own_attempt(
    teacher: Seq<PredictorModel>,
    example: ExampleModel,
    round: nat,
    p: int,
)
    requires
        0 <= p < teacher.len(),
    ensures
        !shown_teacher(teacher, example, round)[p].demos.contains(example),
        shown_teacher(teacher, example, 0)[p].config == teacher[p].config,
        round > 0 ==> shown_teacher(teacher, example, round)[p].config == rollout_sampling(
            round as u64,
        ),
{
    let demos = teacher[p].demos;
    let keep = |d: ExampleModel| d != example;
    if demos.filter(keep).contains(example) {
        let i = choose|i: int| 0 <= i < demos.filter(keep).len() && demos.filter(keep)[i] == example;
        demos.lemma_filter_pred(keep, i);
    }
}

/// A walk ends within `rounds` attempts at each example: every attempt moves it on.
pub proof fn law_every_attempt_moves_the_walk(walk: WalkModel, outcome: Attempted)
    requires
        walk.well_formed(),
        walk.progress is Attempting,
    ensures
        match (walk.progress, walk.attempted(outcome).progress) {
            (
                Progress::Attempting { index: i, round: r },
                Progress::Attempting { index: j, round: s },
            ) => j > i || (j == i && s > r),
            _ => true,
        },
        walk.attempted(outcome).kept <= walk.settings.max_bootstrapped_demos,
{
}

/// Every call that was answered earns its predictor a demo, in the order the calls were made, and a
/// call that was not earns none: one call more is one demo more or none.
pub proof fn law_every_answered_call_earns_a_demo(trace: Seq<StepModel>, step: StepModel)
    ensures
        traced_demos(Seq::empty()).len() == 0,
        match step.outputs {
            OutputsModel::Answered(outputs) => traced_demos(trace.push(step)) == traced_demos(
                trace,
            ).push((step.predictor, augmented(step.inputs, outputs))),
            OutputsModel::Unparsed(_) => traced_demos(trace.push(step)) == traced_demos(trace),
        },
{
    assert(trace.push(step).drop_last() =~= trace);
}

/// Without a bar, or with a bar of zero, every score but zero is a success. With any other bar a
/// score is one exactly where it is no lower than the bar, so a higher score never fails where a
/// lower one passed.
pub proof fn law_a_higher_score_is_no_less_a_success(bar: Double, lower: Double, higher: Double)
    requires
        !is_nan(bar),
        !is_nan(lower),
        !is_nan(higher),
        !exceeds(lower, higher),
    ensures
        accepted(None, lower) <==> !is_zero(lower),
        is_zero(bar) ==> (accepted(Some(bar), lower) <==> !is_zero(lower)),
        !is_zero(bar) && accepted(Some(bar), lower) ==> accepted(Some(bar), higher),
        !is_zero(bar) ==> accepted(Some(bar), bar),
        !is_zero(bar) ==> (accepted(Some(bar), lower) <==> !exceeds(bar, lower)),
{
}

/// An attempt sees the teacher's demos but for the example itself, in their order, and the rest of
/// the teacher as it is.
pub proof fn law_only_the_example_is_withheld(
    teacher: Seq<PredictorModel>,
    example: ExampleModel,
    round: nat,
    p: int,
)
    requires
        0 <= p < teacher.len(),
    ensures
        shown_teacher(teacher, example, round).len() == teacher.len(),
        shown_teacher(teacher, example, round)[p].demos == teacher[p].demos.filter(
            |d: ExampleModel| d != example,
        ),
        shown_teacher(teacher, example, round)[p].signature == teacher[p].signature,
        shown_teacher(teacher, example, round)[p].name == teacher[p].name,
        !teacher[p].demos.contains(example) ==> shown_teacher(teacher, example, round)[p].demos
            == teacher[p].demos,
{
    let demos = teacher[p].demos;
    let keep = |d: ExampleModel| d != example;
    let shown = shown_teacher(teacher, example, round)[p];
    assert(shown.demos == withheld(demos, example));
    lemma_withheld(demos, example, keep);
    if !demos.contains(example) {
        lemma_everything_passes(demos, keep);
    }
}

proof fn lemma_withheld(
    demos: Seq<ExampleModel>,
    example: ExampleModel,
    keep: spec_fn(ExampleModel) -> bool,
)
    requires
        forall|d: ExampleModel| #[trigger] keep(d) == (d != example),
    ensures
        withheld(demos, example) == demos.filter(keep),
    decreases demos.len(),
{
    reveal(Seq::filter);
    if demos.len() > 0 {
        lemma_withheld(demos.drop_last(), example, keep);
        assert(keep(demos.last()) == (demos.last() != example));
    }
}

/// A walk begins at the first example and skips none. A round that did not solve its example is
/// followed by the next round, and the last by the next example; a success goes on to the next
/// example at once. The walk stops short only with its demos complete or its failures used up, and
/// only the example at hand is ever marked solved.
pub proof fn law_no_example_is_skipped(walk: WalkModel, outcome: Attempted, examples: nat)
    requires
        walk.well_formed(),
        walk.progress is Attempting,
        0 < examples <= usize::MAX,
    ensures
        ({
            let index = walk.progress->index as int;
            let round = walk.progress->round as int;
            let after = walk.attempted(outcome);
            let failed_out = outcome is Failed && walk.errors + 1 >= walk.settings.max_errors;
            let again = !(outcome is Solved) && round + 1 < walk.settings.max_rounds;
            let complete = after.kept >= walk.settings.max_bootstrapped_demos;
            &&& WalkModel::started(walk.settings, examples).progress == Progress::Attempting {
                index: 0,
                round: 0,
            }
            &&& after.progress is GaveUp <==> failed_out
            &&& !failed_out && again ==> after.progress == Progress::Attempting {
                index: index as usize,
                round: (round + 1) as usize,
            }
            &&& !failed_out && !again && index + 1 < walk.solved.len() && !complete
                ==> after.progress == Progress::Attempting { index: (index + 1) as usize, round: 0 }
            &&& !failed_out && !again && (index + 1 >= walk.solved.len() || complete)
                ==> after.progress is Finished
            &&& outcome is Solved ==> after.solved == walk.solved.update(index, true) && after.kept
                == walk.kept + 1
            &&& !(outcome is Solved) ==> after.solved == walk.solved && after.kept == walk.kept
            &&& after.errors == walk.errors + if outcome is Failed {
                1int
            } else {
                0int
            }
            &&& after.settings == walk.settings
        }),
{
}

/// The labelled pool is what the walk left unsolved, in trainset order: the example at `i`, where it
/// is unsolved, stands behind the unsolved ones before it.
pub proof fn law_the_unsolved_are_the_rest(
    trainset: Seq<ExampleModel>,
    solved: Seq<bool>,
    i: int,
)
    requires
        trainset.len() == solved.len(),
        0 <= i < trainset.len(),
    ensures
        unsolved(trainset, solved).len() + solved_count(solved) == trainset.len(),
        !solved[i] ==> unsolved(trainset, solved)[i - solved_count(solved.take(i))] == trainset[i],
{
    lemma_unsolved(trainset, solved, trainset.len() as int, i);
    assert(trainset.take(trainset.len() as int) =~= trainset);
    assert(solved.take(trainset.len() as int) =~= solved);
}

proof fn lemma_unsolved(trainset: Seq<ExampleModel>, solved: Seq<bool>, n: int, i: int)
    requires
        trainset.len() == solved.len(),
        0 <= n <= trainset.len(),
    ensures
        unsolved(trainset.take(n), solved).len() + solved_count(solved.take(n)) == n,
        0 <= i < n && !solved[i] ==> {
            let at = i - solved_count(solved.take(i));
            0 <= at < unsolved(trainset.take(n), solved).len() && unsolved(
                trainset.take(n),
                solved,
            )[at] == trainset[i]
        },
    decreases n,
{
    if n > 0 {
        lemma_unsolved(trainset, solved, n - 1, i);
        assert(trainset.take(n).drop_last() =~= trainset.take(n - 1));
        assert(solved.take(n).drop_last() =~= solved.take(n - 1));
        if i == n - 1 {
            assert(solved.take(i) =~= solved.take(n - 1));
        }
    }
}

/// How many examples are solved is counted one by one.
pub proof fn law_the_solved_are_counted(solved: Seq<bool>, one: bool)
    ensures
        solved_count(Seq::empty()) == 0,
        solved_count(solved.push(one)) == solved_count(solved) + if one {
            1nat
        } else {
            0nat
        },
        solved_count(solved) <= solved.len(),
    decreases solved.len(),
{
    assert(solved.push(one).drop_last() =~= solved);
    if solved.len() > 0 {
        law_the_solved_are_counted(solved.drop_last(), one);
        assert(solved.drop_last().push(solved.last()) =~= solved);
    }
}

/// A trained predictor starts with what it was taught, from the first on and as much as the
/// bootstrapped budget allows, and is filled up with labelled rows as far as the labelled budget and
/// the rows go. Those are drawn from the rows that the predictor before it was given, and for the
/// first predictor from those of the walk. Nothing else of it changes.
pub proof fn law_training_fills_every_predictor(
    settings: BootstrapFewShot,
    program: Seq<PredictorModel>,
    bootstrapped: BootstrappedModel,
    draws: Seq<Seq<usize>>,
    p: int,
)
    requires
        training_draws(settings, program, bootstrapped, draws),
        0 <= p < program.len(),
    ensures
        ({
            let most = settings.max_bootstrapped_demos as int;
            let budget = settings.max_labeled_demos as int;
            let taught = bootstrapped.taught(program[p].name);
            let kept = if most <= taught.len() {
                most
            } else {
                taught.len() as int
            };
            let space = if kept < budget {
                budget - kept
            } else {
                0
            };
            let now = trained_predictor(settings, program, bootstrapped, draws, p);
            let rows = now.demos.skip(kept);
            let pool = if p == 0 {
                bootstrapped.validation
            } else {
                let earlier = trained_predictor(settings, program, bootstrapped, draws, p - 1);
                let before = bootstrapped.taught(program[p - 1].name);
                earlier.demos.skip(
                    if most <= before.len() {
                        most
                    } else {
                        before.len() as int
                    },
                )
            };
            &&& now.demos.len() >= kept
            &&& forall|k: int| 0 <= k < kept ==> #[trigger] now.demos[k] == taught[k]
            &&& rows.len() == if space <= pool.len() {
                space
            } else {
                pool.len() as int
            }
            &&& forall|k: int|
                0 <= k < rows.len() ==> #[trigger] rows[k] == pool[draws[p][k] as int]
            &&& now.with_demos(program[p].demos) == program[p]
        }),
{
    let most = settings.max_bootstrapped_demos as int;
    let taught = bootstrapped.taught(program[p].name);
    let kept = if most <= taught.len() {
        most
    } else {
        taught.len() as int
    };
    let now = trained_predictor(settings, program, bootstrapped, draws, p);
    lemma_training_draw(settings, program, bootstrapped, draws, p);
    assert(now.demos.skip(kept) =~= raw_demos(program, bootstrapped, draws, (p + 1) as nat));
    if p > 0 {
        let earlier = trained_predictor(settings, program, bootstrapped, draws, p - 1);
        let before = bootstrapped.taught(program[p - 1].name);
        let held = if most <= before.len() {
            most
        } else {
            before.len() as int
        };
        assert(earlier.demos.skip(held) =~= raw_demos(program, bootstrapped, draws, p as nat));
    }
}

/// Two predictors are twins where they have one name and one signature, whatever their demos.
pub proof fn law_twins_share_name_and_signature(
    student: Seq<PredictorModel>,
    teacher: Seq<PredictorModel>,
    demos: Seq<ExampleModel>,
    i: int,
)
    requires
        0 <= i < student.len() && i < teacher.len(),
    ensures
        twins(student, student, i),
        twins(student, student.update(i, student[i].with_demos(demos)), i),
        student[i].name != teacher[i].name ==> !twins(student, teacher, i),
        student[i].signature != teacher[i].signature ==> !twins(student, teacher, i),
{
}

} // verus!
