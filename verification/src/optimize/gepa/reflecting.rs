//! Turning runs into the records a reflection reads.
//!
//! For a predictor that is one of its calls per run, drawn where there are several. For generated
//! code it is what the whole program was given and answered.
use vstd::prelude::*;
use vstd::string::StringExecFns;
use crate::duplicate::append;
use crate::entries::{lemma_everything_passes, lemma_slot, lemma_tests_that_agree};
use crate::example::{Example, ExampleModel, Prediction, PredictionModel, ValueModel};
use crate::module::trace::{
    FailedPrediction, FailureModel, OutputsModel, StepModel, StepOutputs, TraceStep,
};
use crate::optimize::gepa::metric::{Feedback, FeedbackModel};
use crate::optimize::gepa::reflective::{
    lemma_named, print, rendered_map, shown_fields, Reflective, ReflectiveDataset, ReflectiveModel,
    ReflectiveSample,
};
use crate::signature::{FieldModel, Signature, SignatureModel};
use crate::text::{decimal, decimal_text, same_text};

verus! {

/// One run, kept for a reflection to read.
#[derive(Debug)]
pub struct Captured {
    pub example: Example,
    pub prediction: Prediction,
    pub trace: Vec<TraceStep>,
    /// What scoring said about the run.
    pub scored: Feedback,
    /// The completion nobody could read, where the run ended in one.
    pub unparsed: Option<FailedPrediction>,
}

/// What a [`Captured`] holds.
#[verifier::ext_equal]
pub struct CapturedModel {
    pub example: ExampleModel,
    pub prediction: PredictionModel,
    pub trace: Seq<StepModel>,
    pub scored: FeedbackModel,
    pub unparsed: Option<FailureModel>,
}

impl DeepView for Captured {
    type V = CapturedModel;

    open spec fn deep_view(&self) -> CapturedModel {
        CapturedModel {
            example: self.example.deep_view(),
            prediction: self.prediction.deep_view(),
            trace: self.trace.deep_view(),
            scored: self.scored.deep_view(),
            unparsed: self.unparsed.deep_view(),
        }
    }
}

/// Whether a call may be reflected on: it was made under this signature, and it parsed unless
/// failures are wanted.
pub open spec fn reflects(step: StepModel, signature: SignatureModel, failures: bool) -> bool {
    step.signature == signature && (failures || step.outputs is Answered)
}

/// The positions of the calls that may be reflected on.
pub open spec fn instances(
    trace: Seq<StepModel>,
    signature: SignatureModel,
    failures: bool,
) -> Seq<usize>
    decreases trace.len(),
{
    if trace.len() == 0 {
        Seq::empty()
    } else {
        let before = instances(trace.drop_last(), signature, failures);
        if reflects(trace.last(), signature, failures) {
            before.push((trace.len() - 1) as usize)
        } else {
            before
        }
    }
}

/// The first of these calls that did not parse.
pub open spec fn first_failure(trace: Seq<StepModel>, calls: Seq<usize>) -> Option<usize>
    decreases calls.len(),
{
    if calls.len() == 0 {
        None
    } else if first_failure(trace, calls.drop_last()) is Some {
        first_failure(trace, calls.drop_last())
    } else if trace[calls.last() as int].outputs is Unparsed {
        Some(calls.last())
    } else {
        None
    }
}

/// Which call of a run is reflected on.
#[derive(Debug)]
pub enum Choice {
    /// None: the run drops out.
    Nothing,
    /// This one, which did not parse. Nothing is drawn.
    Failure { step: usize },
    /// One of these, to be drawn.
    Draw { calls: Vec<usize> },
}

/// What a [`Choice`] holds.
#[verifier::ext_equal]
pub enum ChoiceModel {
    Nothing,
    Failure { step: usize },
    Draw { calls: Seq<usize> },
}

impl DeepView for Choice {
    type V = ChoiceModel;

    open spec fn deep_view(&self) -> ChoiceModel {
        match *self {
            Choice::Nothing => ChoiceModel::Nothing,
            Choice::Failure { step } => ChoiceModel::Failure { step },
            Choice::Draw { calls } => ChoiceModel::Draw { calls: calls@ },
        }
    }
}

/// The call of a run that a reflection on this signature reads: a failed one is preferred; a run
/// whose answer did not parse contributes nothing else; otherwise one is drawn.
pub open spec fn choice(
    captured: CapturedModel,
    signature: SignatureModel,
    failures: bool,
) -> ChoiceModel {
    let calls = instances(captured.trace, signature, failures);
    match first_failure(captured.trace, calls) {
        Some(step) => ChoiceModel::Failure { step },
        None => if calls.len() == 0 || captured.unparsed is Some {
            ChoiceModel::Nothing
        } else {
            ChoiceModel::Draw { calls }
        },
    }
}

proof fn lemma_instances(trace: Seq<StepModel>, signature: SignatureModel, failures: bool)
    requires
        trace.len() <= usize::MAX,
    ensures
        instances(trace, signature, failures).len() <= trace.len(),
        forall|i: int|
            0 <= i < instances(trace, signature, failures).len() ==> {
                let at = #[trigger] instances(trace, signature, failures)[i];
                at < trace.len() && reflects(trace[at as int], signature, failures)
            },
    decreases trace.len(),
{
    if trace.len() > 0 {
        let before = instances(trace.drop_last(), signature, failures);
        lemma_instances(trace.drop_last(), signature, failures);
        assert forall|i: int| 0 <= i < instances(trace, signature, failures).len() implies {
            let at = #[trigger] instances(trace, signature, failures)[i];
            at < trace.len() && reflects(trace[at as int], signature, failures)
        } by {
            if i < before.len() {
                assert(trace.drop_last()[before[i] as int] == trace[before[i] as int]);
            }
        }
    }
}

proof fn lemma_first_failure(trace: Seq<StepModel>, calls: Seq<usize>)
    ensures
        match first_failure(trace, calls) {
            Some(step) => calls.contains(step) && trace[step as int].outputs is Unparsed,
            None => forall|i: int|
                0 <= i < calls.len() ==> !(trace[#[trigger] calls[i] as int].outputs is Unparsed),
        },
    decreases calls.len(),
{
    if calls.len() > 0 {
        let before = calls.drop_last();
        lemma_first_failure(trace, before);
        match first_failure(trace, before) {
            Some(step) => {
                let i = choose|i: int| 0 <= i < before.len() && before[i] == step;
                assert(calls[i] == step);
            },
            None => {
                assert(calls[calls.len() - 1] == calls.last());
                assert forall|i: int|
                    first_failure(trace, calls) is None && 0 <= i < calls.len() implies !(
                trace[#[trigger] calls[i] as int].outputs is Unparsed) by {
                    if i < before.len() {
                        assert(before[i] == calls[i]);
                    }
                }
            },
        }
    }
}

impl Captured {
    /// The call of this run that a reflection on a signature reads. `failures` is whether a call
    /// that did not parse may be.
    pub fn choice(&self, signature: &Signature, failures: bool) -> (r: Choice)
        ensures
            r.deep_view() == choice(self.deep_view(), signature.deep_view(), failures),
            match r {
                Choice::Nothing => true,
                Choice::Failure { step } => step < self.trace@.len(),
                Choice::Draw { calls } => calls@.len() > 0 && forall|i: int|
                    0 <= i < calls@.len() ==> (#[trigger] calls@[i]) < self.trace@.len(),
            },
    {
        let ghost trace = self.trace.deep_view();
        let ghost wanted = signature.deep_view();
        let mut calls: Vec<usize> = Vec::new();
        let mut failed: Option<usize> = None;
        let mut i: usize = 0;
        proof {
            assert(calls@ =~= instances(trace.take(0), wanted, failures));
        }
        while i < self.trace.len()
            invariant
                i <= self.trace@.len(),
                trace == self.trace.deep_view(),
                wanted == signature.deep_view(),
                calls@ == instances(trace.take(i as int), wanted, failures),
                failed == first_failure(trace, calls@),
            decreases self.trace@.len() - i,
        {
            let step = &self.trace[i];
            proof {
                assert(trace.take(i + 1).drop_last() =~= trace.take(i as int));
                assert(trace[i as int] == step.deep_view());
            }
            if step.signature.equals(signature) && (failures || step.outputs.answered().is_some()) {
                let ghost before = calls@;
                calls.push(i);
                proof {
                    assert(calls@.drop_last() =~= before);
                }
                if failed.is_none() && step.outputs.failure().is_some() {
                    failed = Some(i);
                }
            }
            i = i + 1;
        }
        proof {
            assert(trace.take(i as int) =~= trace);
            lemma_instances(trace, wanted, failures);
            lemma_first_failure(trace, calls@);
        }
        match failed {
            Some(step) => {
                proof {
                    let k = choose|k: int| 0 <= k < calls@.len() && calls@[k] == step;
                    assert(calls@[k] < trace.len());
                }
                Choice::Failure { step }
            },
            None => if calls.len() == 0 || self.unparsed.is_some() {
                Choice::Nothing
            } else {
                Choice::Draw { calls }
            },
        }
    }
}

/// How many calls each draw is made among, in the order the runs are read.
pub open spec fn draws_needed(
    captured: Seq<CapturedModel>,
    signature: SignatureModel,
    failures: bool,
) -> Seq<usize>
    decreases captured.len(),
{
    if captured.len() == 0 {
        Seq::empty()
    } else {
        let before = draws_needed(captured.drop_last(), signature, failures);
        match choice(captured.last(), signature, failures) {
            ChoiceModel::Draw { calls } => before.push(calls.len() as usize),
            _ => before,
        }
    }
}

/// Which runs are reflected on, and which call of each: the failed one, or the one that was drawn.
pub open spec fn selection(
    captured: Seq<CapturedModel>,
    signature: SignatureModel,
    failures: bool,
    draws: Seq<usize>,
) -> Seq<(usize, usize)>
    decreases captured.len(),
{
    if captured.len() == 0 {
        Seq::empty()
    } else {
        let earlier = captured.drop_last();
        let before = selection(earlier, signature, failures, draws);
        let at = (captured.len() - 1) as usize;
        match choice(captured.last(), signature, failures) {
            ChoiceModel::Nothing => before,
            ChoiceModel::Failure { step } => before.push((at, step)),
            ChoiceModel::Draw { calls } => before.push(
                (at, calls[draws[draws_needed(earlier, signature, failures).len() as int] as int]),
            ),
        }
    }
}

/// Whether each draw fell among the calls it was made among.
pub open spec fn drawn_for(draws: Seq<usize>, needed: Seq<usize>) -> bool {
    &&& draws.len() == needed.len()
    &&& forall|i: int| 0 <= i < draws.len() ==> #[trigger] draws[i] < needed[i]
}

/// Whether every selected call is one of its run's.
pub open spec fn in_range(captured: Seq<CapturedModel>, selected: Seq<(usize, usize)>) -> bool {
    forall|i: int|
        0 <= i < selected.len() ==> (#[trigger] selected[i]).0 < captured.len() && selected[i].1
            < captured[selected[i].0 as int].trace.len()
}

proof fn lemma_draws_needed_grow(
    captured: Seq<CapturedModel>,
    signature: SignatureModel,
    failures: bool,
    n: int,
)
    requires
        0 <= n <= captured.len(),
    ensures
        draws_needed(captured.take(n), signature, failures).len() <= draws_needed(
            captured,
            signature,
            failures,
        ).len(),
        forall|i: int|
            0 <= i < draws_needed(captured.take(n), signature, failures).len()
                ==> #[trigger] draws_needed(captured.take(n), signature, failures)[i]
                == draws_needed(captured, signature, failures)[i],
    decreases captured.len() - n,
{
    if n < captured.len() {
        lemma_draws_needed_grow(captured, signature, failures, n + 1);
        assert(captured.take(n + 1).drop_last() =~= captured.take(n));
        let here = draws_needed(captured.take(n), signature, failures);
        let next = draws_needed(captured.take(n + 1), signature, failures);
        assert forall|i: int| 0 <= i < here.len() implies #[trigger] here[i] == draws_needed(
            captured,
            signature,
            failures,
        )[i] by {
            assert(next[i] == here[i]);
        }
    } else {
        assert(captured.take(n) =~= captured);
    }
}

/// How many calls each draw is made among, in the order the runs are read. A run without a call to
/// reflect on, or with a failed one, takes none.
pub fn reflective_draws(captured: &Vec<Captured>, signature: &Signature, failures: bool) -> (r: Vec<
    usize,
>)
    ensures
        r@ == draws_needed(captured.deep_view(), signature.deep_view(), failures),
{
    let mut r: Vec<usize> = Vec::new();
    let ghost model = captured.deep_view();
    let ghost wanted = signature.deep_view();
    let mut i: usize = 0;
    proof {
        assert(r@ =~= draws_needed(model.take(0), wanted, failures));
    }
    while i < captured.len()
        invariant
            i <= captured@.len(),
            model == captured.deep_view(),
            wanted == signature.deep_view(),
            r@ == draws_needed(model.take(i as int), wanted, failures),
        decreases captured@.len() - i,
    {
        proof {
            assert(model.take(i + 1).drop_last() =~= model.take(i as int));
            assert(model.take(i + 1).last() == captured@[i as int].deep_view());
        }
        match captured[i].choice(signature, failures) {
            Choice::Draw { calls } => {
                r.push(calls.len());
            },
            _ => {},
        }
        i = i + 1;
    }
    proof {
        assert(model.take(i as int) =~= model);
    }
    r
}

/// Which runs are reflected on, and which call of each, given what was drawn.
pub fn reflective_selection(
    captured: &Vec<Captured>,
    signature: &Signature,
    failures: bool,
    draws: &Vec<usize>,
) -> (r: Vec<(usize, usize)>)
    requires
        drawn_for(
            draws@,
            draws_needed(captured.deep_view(), signature.deep_view(), failures),
        ),
    ensures
        r@ == selection(captured.deep_view(), signature.deep_view(), failures, draws@),
        in_range(captured.deep_view(), r@),
{
    let mut r: Vec<(usize, usize)> = Vec::new();
    let ghost model = captured.deep_view();
    let ghost wanted = signature.deep_view();
    let ghost needed = draws_needed(model, wanted, failures);
    let mut used: usize = 0;
    let mut i: usize = 0;
    proof {
        assert(r@ =~= selection(model.take(0), wanted, failures, draws@));
        assert(draws_needed(model.take(0), wanted, failures).len() == 0);
    }
    while i < captured.len()
        invariant
            i <= captured@.len(),
            model == captured.deep_view(),
            wanted == signature.deep_view(),
            needed == draws_needed(model, wanted, failures),
            drawn_for(draws@, needed),
            used == draws_needed(model.take(i as int), wanted, failures).len(),
            r@ == selection(model.take(i as int), wanted, failures, draws@),
            in_range(model, r@),
        decreases captured@.len() - i,
    {
        let ghost here = captured@[i as int].deep_view();
        proof {
            assert(model.take(i + 1).drop_last() =~= model.take(i as int));
            assert(model.take(i + 1).last() == here);
            assert(model[i as int] == here);
            lemma_draws_needed_grow(model, wanted, failures, i + 1);
        }
        match captured[i].choice(signature, failures) {
            Choice::Nothing => {},
            Choice::Failure { step } => {
                r.push((i, step));
            },
            Choice::Draw { calls } => {
                proof {
                    let next = draws_needed(model.take(i + 1), wanted, failures);
                    assert(next[used as int] == calls.len());
                    assert(draws@[used as int] < needed[used as int]);
                }
                let drawn: usize = draws[used];
                proof {
                    assert(used < draws.len());
                }
                r.push((i, calls[drawn]));
                used = used + 1;
            },
        }
        i = i + 1;
    }
    proof {
        assert(model.take(i as int) =~= model);
    }
    r
}

/// The first input declared as a conversation.
pub open spec fn history_in(inputs: Seq<FieldModel>) -> Option<Seq<char>>
    decreases inputs.len(),
{
    if inputs.len() == 0 {
        None
    } else if inputs[0].kind == "History"@ {
        Some(inputs[0].name)
    } else {
        history_in(inputs.skip(1))
    }
}

fn history_field(signature: &Signature) -> (r: Option<String>)
    ensures
        r.deep_view() == history_in(signature.deep_view().inputs),
{
    let ghost inputs = signature.deep_view().inputs;
    let mut i: usize = 0;
    proof {
        assert(inputs.skip(0) =~= inputs);
    }
    while i < signature.inputs.len()
        invariant
            i <= signature.inputs@.len(),
            inputs == signature.deep_view().inputs,
            history_in(inputs) == history_in(inputs.skip(i as int)),
        decreases signature.inputs@.len() - i,
    {
        proof {
            assert(inputs.skip(i as int).skip(1) =~= inputs.skip(i + 1));
            assert(inputs.skip(i as int)[0] == signature.inputs@[i as int].deep_view());
        }
        if same_text(signature.inputs[i].kind.as_str(), "History") {
            return Some(signature.inputs[i].name.clone());
        }
        i = i + 1;
    }
    None
}

/// The lines of the first `n` messages of a conversation.
pub open spec fn message_lines(messages: Seq<Seq<char>>, n: nat) -> Seq<char>
    decreases n,
{
    if n == 0 {
        Seq::empty()
    } else {
        message_lines(messages, (n - 1) as nat) + ("  "@ + decimal((n - 1) as nat) + ": "@
            + messages[n - 1] + "\n"@)
    }
}

/// A conversation as one numbered, fenced listing.
pub open spec fn listing(messages: Seq<Seq<char>>) -> Seq<char> {
    "```json\n"@ + message_lines(messages, messages.len()) + "```"@
}

/// A conversation as one numbered, fenced listing, each message as it prints.
pub fn context_block(messages: &Vec<String>) -> (r: String)
    ensures
        r@ == listing(messages.deep_view()),
{
    let mut block: String = "```json\n".to_owned();
    let ghost head = block@;
    let ghost model = messages.deep_view();
    let mut i: usize = 0;
    proof {
        assert(head + Seq::<char>::empty() =~= head);
    }
    while i < messages.len()
        invariant
            i <= messages@.len(),
            model == messages.deep_view(),
            block@ == head + message_lines(model, i as nat),
        decreases messages@.len() - i,
    {
        let ghost before = message_lines(model, i as nat);
        let mut line: String = "  ".to_owned();
        line.append(decimal_text(i).as_str());
        line.append(": ");
        line.append(messages[i].as_str());
        line.append("\n");
        block.append(line.as_str());
        proof {
            assert(head + before + line@ =~= head + (before + line@));
        }
        i = i + 1;
    }
    block.append("```");
    block
}

/// The fields of a call other than its conversation, each as it prints.
pub open spec fn other_fields(
    fields: Seq<(Seq<char>, ReflectiveModel)>,
    history: Option<Seq<char>>,
) -> Seq<(Seq<char>, ReflectiveModel)> {
    fields.filter(|f: (Seq<char>, ReflectiveModel)| Some(f.0) != history)
}

/// A call's inputs as a reflection shows them: a conversation is lifted out and comes first, as one
/// listing under `Context`.
pub open spec fn shown_inputs(
    inputs: ExampleModel,
    signature: SignatureModel,
    messages: Seq<Seq<char>>,
) -> Seq<(Seq<char>, ReflectiveModel)> {
    let history = history_in(signature.inputs);
    let context = match history {
        Some(name) => if inputs.get(name) is Some {
            seq![("Context"@, ReflectiveModel::Text(listing(messages)))]
        } else {
            Seq::empty()
        },
        None => Seq::empty(),
    };
    context + other_fields(shown_fields(inputs), history)
}

/// A call's inputs as a reflection shows them. `messages` is how each message of the conversation
/// prints, where the signature declares one.
pub fn rendered_inputs(inputs: &Example, signature: &Signature, messages: &Vec<String>) -> (r:
    Reflective)
    ensures
        r.deep_view() == ReflectiveModel::Named(
            shown_inputs(inputs.deep_view(), signature.deep_view(), messages.deep_view()),
        ),
{
    let history = history_field(signature);
    let ghost named = history_in(signature.deep_view().inputs);
    let mut entries: Vec<(String, Reflective)> = Vec::new();
    proof {
        assert(entries.deep_view() =~= Seq::<(Seq<char>, ReflectiveModel)>::empty());
    }
    if let Some(name) = &history {
        if inputs.has(name.as_str()) {
            append(
                &mut entries,
                ("Context".to_owned(), Reflective::Text(context_block(messages))),
            );
        }
    }
    let ghost context = entries.deep_view();
    let ghost all = shown_fields(inputs.deep_view());
    let ghost keep = |f: (Seq<char>, ReflectiveModel)| Some(f.0) != named;
    let mut i: usize = 0;
    proof {
        reveal(Seq::filter);
        assert(all.take(0).filter(keep) =~= Seq::empty());
        assert(context + all.take(0).filter(keep) =~= context);
    }
    while i < inputs.fields.len()
        invariant
            i <= inputs.fields@.len(),
            all == shown_fields(inputs.deep_view()),
            history.deep_view() == named,
            keep == (|f: (Seq<char>, ReflectiveModel)| Some(f.0) != named),
            entries.deep_view() == context + all.take(i as int).filter(keep),
        decreases inputs.fields@.len() - i,
    {
        proof {
            assert(all.take(i + 1).drop_last() =~= all.take(i as int));
            reveal(Seq::filter);
            assert(inputs.deep_view().fields[i as int] == (
                inputs.fields@[i as int].0@,
                inputs.fields@[i as int].1.deep_view(),
            ));
        }
        let name = &inputs.fields[i].0;
        let lifted = match &history {
            Some(conversation) => same_text(name.as_str(), conversation.as_str()),
            None => false,
        };
        if !lifted {
            let ghost before = all.take(i as int).filter(keep);
            append(&mut entries, (name.clone(), Reflective::Text(print(&inputs.fields[i].1))));
            proof {
                assert((context + before).push(all[i as int]) =~= context + before.push(
                    all[i as int],
                ));
            }
        }
        i = i + 1;
    }
    proof {
        assert(all.take(i as int) =~= all);
        lemma_named(entries);
        assert(entries.deep_view() =~= shown_inputs(
            inputs.deep_view(),
            signature.deep_view(),
            messages.deep_view(),
        ));
    }
    Reflective::Named(entries)
}

/// What a record says of one selected call, beside the call itself.
#[derive(Debug)]
pub struct Words {
    /// What the metric says about the call, or the structure the model should have followed.
    pub feedback: String,
    /// How a completion that did not parse is shown.
    pub unparsed: String,
    /// How each message of the call's conversation prints.
    pub messages: Vec<String>,
}

/// What [`Words`] holds.
#[verifier::ext_equal]
pub struct WordsModel {
    pub feedback: Seq<char>,
    pub unparsed: Seq<char>,
    pub messages: Seq<Seq<char>>,
}

impl DeepView for Words {
    type V = WordsModel;

    open spec fn deep_view(&self) -> WordsModel {
        WordsModel {
            feedback: self.feedback@,
            unparsed: self.unparsed@,
            messages: self.messages.deep_view(),
        }
    }
}

/// The record of one call.
pub open spec fn record(
    step: StepModel,
    signature: SignatureModel,
    words: WordsModel,
) -> Seq<(Seq<char>, ReflectiveModel)> {
    seq![
        (
            "Inputs"@,
            ReflectiveModel::Named(shown_inputs(step.inputs, signature, words.messages)),
        ),
        (
            "Generated Outputs"@,
            match step.outputs {
                OutputsModel::Answered(example) => ReflectiveModel::Named(shown_fields(example)),
                OutputsModel::Unparsed(_) => ReflectiveModel::Text(words.unparsed),
            },
        ),
        ("Feedback"@, ReflectiveModel::Text(words.feedback)),
    ]
}

/// The records of the selected calls.
pub open spec fn records(
    captured: Seq<CapturedModel>,
    selected: Seq<(usize, usize)>,
    signature: SignatureModel,
    words: Seq<WordsModel>,
) -> Seq<Seq<(Seq<char>, ReflectiveModel)>> {
    Seq::new(
        selected.len(),
        |i: int|
            record(
                captured[selected[i].0 as int].trace[selected[i].1 as int],
                signature,
                words[i],
            ),
    )
}

fn reflective_sample(step: &TraceStep, signature: &Signature, words: &Words) -> (r: ReflectiveSample)
    ensures
        r.deep_view() == record(step.deep_view(), signature.deep_view(), words.deep_view()),
{
    let mut sample: ReflectiveSample = Vec::new();
    append(
        &mut sample,
        ("Inputs".to_owned(), rendered_inputs(&step.inputs, signature, &words.messages)),
    );
    let outputs = match &step.outputs {
        StepOutputs::Answered(example) => rendered_map(example),
        StepOutputs::Unparsed(_) => Reflective::Text(words.unparsed.clone()),
    };
    append(&mut sample, ("Generated Outputs".to_owned(), outputs));
    append(&mut sample, ("Feedback".to_owned(), Reflective::Text(words.feedback.clone())));
    proof {
        assert(sample.deep_view() =~= record(
            step.deep_view(),
            signature.deep_view(),
            words.deep_view(),
        ));
    }
    sample
}

/// The records of the selected calls: what each was given, what it answered, and what is said of
/// it.
pub fn reflective_dataset(
    captured: &Vec<Captured>,
    selected: &Vec<(usize, usize)>,
    signature: &Signature,
    words: &Vec<Words>,
) -> (r: ReflectiveDataset)
    requires
        in_range(captured.deep_view(), selected@),
        words@.len() == selected@.len(),
    ensures
        r.deep_view() == records(
            captured.deep_view(),
            selected@,
            signature.deep_view(),
            words.deep_view(),
        ),
{
    let mut r: ReflectiveDataset = Vec::new();
    let ghost model = captured.deep_view();
    let ghost all = records(model, selected@, signature.deep_view(), words.deep_view());
    let mut i: usize = 0;
    while i < selected.len()
        invariant
            i <= selected@.len(),
            model == captured.deep_view(),
            in_range(model, selected@),
            words@.len() == selected@.len(),
            all == records(model, selected@, signature.deep_view(), words.deep_view()),
            r.deep_view() =~= all.take(i as int),
        decreases selected@.len() - i,
    {
        let (run, call) = selected[i];
        proof {
            assert(selected@[i as int].0 < model.len());
            assert(model[run as int] == captured@[run as int].deep_view());
        }
        let sample = reflective_sample(&captured[run].trace[call], signature, &words[i]);
        append(&mut r, sample);
        i = i + 1;
    }
    proof {
        assert(all.take(i as int) =~= all);
    }
    r
}

/// The record of one whole run.
pub open spec fn run_record(captured: CapturedModel, score_text: Seq<char>) -> Seq<
    (Seq<char>, ReflectiveModel),
> {
    seq![
        ("Inputs"@, ReflectiveModel::Named(shown_fields(captured.example))),
        ("Generated Outputs"@, ReflectiveModel::Named(shown_fields(captured.prediction.example))),
        ("Feedback"@, ReflectiveModel::Text(captured.scored.text(score_text))),
    ]
}

/// The records generated code is reflected on: what the whole program was given and answered, and
/// what scoring said. `score_texts` is how each run's score prints.
pub fn code_reflective_records(captured: &Vec<Captured>, score_texts: &Vec<String>) -> (r:
    ReflectiveDataset)
    requires
        score_texts@.len() == captured@.len(),
    ensures
        r.deep_view() == Seq::new(
            captured@.len(),
            |i: int| run_record(captured.deep_view()[i], score_texts.deep_view()[i]),
        ),
{
    let mut r: ReflectiveDataset = Vec::new();
    let ghost all = Seq::new(
        captured@.len(),
        |i: int| run_record(captured.deep_view()[i], score_texts.deep_view()[i]),
    );
    let mut i: usize = 0;
    while i < captured.len()
        invariant
            i <= captured@.len(),
            score_texts@.len() == captured@.len(),
            all == Seq::new(
                captured@.len(),
                |i: int| run_record(captured.deep_view()[i], score_texts.deep_view()[i]),
            ),
            r.deep_view() =~= all.take(i as int),
        decreases captured@.len() - i,
    {
        let run = &captured[i];
        let mut sample: ReflectiveSample = Vec::new();
        append(&mut sample, ("Inputs".to_owned(), rendered_map(&run.example)));
        append(
            &mut sample,
            ("Generated Outputs".to_owned(), rendered_map(&run.prediction.example)),
        );
        let feedback = run.scored.text(score_texts[i].as_str());
        append(&mut sample, ("Feedback".to_owned(), Reflective::Text(feedback)));
        proof {
            assert(sample.deep_view() =~= run_record(
                run.deep_view(),
                score_texts@[i as int]@,
            ));
        }
        append(&mut r, sample);
        i = i + 1;
    }
    proof {
        assert(all.take(i as int) =~= all);
    }
    r
}

/// A conversation without messages is an empty fence, and a further message is one more line before
/// the fence closes, under its place in the conversation. So a listing shows every message, in
/// order.
pub proof fn law_a_message_more_is_a_line_more(messages: Seq<Seq<char>>, message: Seq<char>)
    ensures
        listing(Seq::empty()) == "```json\n"@ + "```"@,
        exists|lines: Seq<char>|
            {
                &&& listing(messages) == #[trigger] ("```json\n"@ + lines) + "```"@
                &&& listing(messages.push(message)) == "```json\n"@ + lines + "  "@ + decimal(
                    messages.len(),
                ) + ": "@ + message + "\n"@ + "```"@
            },
{
    let none = Seq::<Seq<char>>::empty();
    assert("```json\n"@ + message_lines(none, 0) =~= "```json\n"@);
    let more = messages.push(message);
    let lines = message_lines(messages, messages.len());
    lemma_earlier_lines(messages, message, messages.len());
    let line = "  "@ + decimal(messages.len()) + ": "@ + message + "\n"@;
    assert(message_lines(more, more.len()) == lines + line);
    assert("```json\n"@ + (lines + line) + "```"@ =~= "```json\n"@ + lines + "  "@ + decimal(
        messages.len(),
    ) + ": "@ + message + "\n"@ + "```"@);
    assert(listing(messages) == ("```json\n"@ + lines) + "```"@);
}

proof fn lemma_earlier_lines(messages: Seq<Seq<char>>, message: Seq<char>, n: nat)
    requires
        n <= messages.len(),
    ensures
        message_lines(messages.push(message), n) == message_lines(messages, n),
    decreases n,
{
    if n > 0 {
        lemma_earlier_lines(messages, message, (n - 1) as nat);
        assert(messages.push(message)[n - 1] == messages[n - 1]);
    }
}

/// Whether `at` is the place of the first input of a call declared a conversation, where there is
/// one.
pub open spec fn is_conversation(signature: SignatureModel, at: Option<int>) -> bool {
    match at {
        Some(h) => {
            &&& 0 <= h < signature.inputs.len()
            &&& signature.inputs[h].kind == "History"@
            &&& forall|i: int| 0 <= i < h ==> (#[trigger] signature.inputs[i]).kind != "History"@
        },
        None => forall|i: int|
            0 <= i < signature.inputs.len() ==> (#[trigger] signature.inputs[i]).kind
                != "History"@,
    }
}

proof fn lemma_history_in(inputs: Seq<FieldModel>, at: Option<int>)
    requires
        match at {
            Some(h) => {
                &&& 0 <= h < inputs.len()
                &&& inputs[h].kind == "History"@
                &&& forall|i: int| 0 <= i < h ==> (#[trigger] inputs[i]).kind != "History"@
            },
            None => forall|i: int|
                0 <= i < inputs.len() ==> (#[trigger] inputs[i]).kind != "History"@,
        },
    ensures
        history_in(inputs) == match at {
            Some(h) => Some(inputs[h].name),
            None => None,
        },
    decreases inputs.len(),
{
    if inputs.len() > 0 && inputs[0].kind != "History"@ {
        let rest = inputs.skip(1);
        match at {
            Some(h) => {
                assert(rest[h - 1] == inputs[h]);
                assert forall|i: int| 0 <= i < h - 1 implies (#[trigger] rest[i]).kind
                    != "History"@ by {
                    assert(rest[i] == inputs[i + 1]);
                }
                lemma_history_in(rest, Some(h - 1));
            },
            None => {
                assert forall|i: int| 0 <= i < rest.len() implies (#[trigger] rest[i]).kind
                    != "History"@ by {
                    assert(rest[i] == inputs[i + 1]);
                }
                lemma_history_in(rest, None);
            },
        }
    }
}

/// The dataset has one record per selected call, which shows the whole of it. Every output the call
/// answered is there, in its place; every input but the conversation is there, in order, behind the
/// conversation's listing where the call was given one; and there is nothing else.
pub proof fn law_a_record_shows_the_whole_call(
    captured: Seq<CapturedModel>,
    selected: Seq<(usize, usize)>,
    signature: SignatureModel,
    words: Seq<WordsModel>,
    i: int,
    conversation: Option<int>,
)
    requires
        0 <= i < selected.len(),
        is_conversation(signature, conversation),
    ensures
        ({
            let shown = records(captured, selected, signature, words)[i];
            let step = captured[selected[i].0 as int].trace[selected[i].1 as int];
            let given = step.inputs.fields;
            let as_printed = |f: (Seq<char>, ValueModel)|
                (
                    f.0,
                    ReflectiveModel::Text(
                        match f.1 {
                            ValueModel::Text(text) => text,
                            ValueModel::Other { repr, .. } => repr,
                        },
                    ),
                );
            &&& records(captured, selected, signature, words).len() == selected.len()
            &&& shown.len() == 3
            &&& shown[0].0 == "Inputs"@
            &&& shown[1].0 == "Generated Outputs"@
            &&& shown[2] == ("Feedback"@, ReflectiveModel::Text(words[i].feedback))
            &&& match step.outputs {
                OutputsModel::Answered(example) => shown[1].1 == ReflectiveModel::Named(
                    Seq::new(example.fields.len(), |k: int| as_printed(example.fields[k])),
                ),
                OutputsModel::Unparsed(_) => shown[1].1 == ReflectiveModel::Text(
                    words[i].unparsed,
                ),
            }
            &&& match conversation {
                None => shown[0].1 == ReflectiveModel::Named(
                    Seq::new(given.len(), |k: int| as_printed(given[k])),
                ),
                Some(h) => {
                    let name = signature.inputs[h].name;
                    let others = Seq::new(given.len(), |k: int| as_printed(given[k])).filter(
                        |f: (Seq<char>, ReflectiveModel)| f.0 != name,
                    );
                    if exists|k: int| 0 <= k < given.len() && (#[trigger] given[k]).0 == name {
                        shown[0].1 == ReflectiveModel::Named(
                            seq![("Context"@, ReflectiveModel::Text(listing(words[i].messages)))]
                                + others,
                        )
                    } else {
                        shown[0].1 == ReflectiveModel::Named(others)
                    }
                },
            }
        }),
{
    let step = captured[selected[i].0 as int].trace[selected[i].1 as int];
    let given = step.inputs.fields;
    let as_printed = |f: (Seq<char>, ValueModel)|
        (
            f.0,
            ReflectiveModel::Text(
                match f.1 {
                    ValueModel::Text(text) => text,
                    ValueModel::Other { repr, .. } => repr,
                },
            ),
        );
    let all = Seq::new(given.len(), |k: int| as_printed(given[k]));
    let history = history_in(signature.inputs);
    lemma_history_in(signature.inputs, conversation);
    assert(shown_fields(step.inputs) =~= all);
    match step.outputs {
        OutputsModel::Answered(example) => {
            assert(shown_fields(example) =~= Seq::new(
                example.fields.len(),
                |k: int| as_printed(example.fields[k]),
            ));
        },
        OutputsModel::Unparsed(_) => {},
    }
    let keep = |f: (Seq<char>, ReflectiveModel)| Some(f.0) != history;
    let empty = Seq::<(Seq<char>, ReflectiveModel)>::empty();
    match conversation {
        None => {
            lemma_everything_passes(all, keep);
            assert(empty + all =~= all);
        },
        Some(h) => {
            let name = signature.inputs[h].name;
            let other = |f: (Seq<char>, ReflectiveModel)| f.0 != name;
            lemma_tests_that_agree(all, keep, other);
            lemma_slot(given, name);
            assert(empty + all.filter(other) =~= all.filter(other));
            if exists|k: int| 0 <= k < given.len() && (#[trigger] given[k]).0 == name {
                let k = choose|k: int| 0 <= k < given.len() && (#[trigger] given[k]).0 == name;
                assert(step.inputs.get(name) is Some);
            }
        },
    }
}

/// A program's run is recorded whole where generated code is reflected on: every field it was given
/// and every field it answered, each in its place.
pub proof fn law_a_run_record_shows_the_whole_run(captured: CapturedModel, score_text: Seq<char>)
    ensures
        ({
            let shown = run_record(captured, score_text);
            let as_printed = |f: (Seq<char>, ValueModel)|
                (
                    f.0,
                    ReflectiveModel::Text(
                        match f.1 {
                            ValueModel::Text(text) => text,
                            ValueModel::Other { repr, .. } => repr,
                        },
                    ),
                );
            let answered = captured.prediction.example.fields;
            &&& shown.len() == 3
            &&& shown[0] == (
                "Inputs"@,
                ReflectiveModel::Named(
                    Seq::new(
                        captured.example.fields.len(),
                        |k: int| as_printed(captured.example.fields[k]),
                    ),
                ),
            )
            &&& shown[1] == (
                "Generated Outputs"@,
                ReflectiveModel::Named(
                    Seq::new(answered.len(), |k: int| as_printed(answered[k])),
                ),
            )
            &&& shown[2].0 == "Feedback"@
        }),
{
    let as_printed = |f: (Seq<char>, ValueModel)|
        (
            f.0,
            ReflectiveModel::Text(
                match f.1 {
                    ValueModel::Text(text) => text,
                    ValueModel::Other { repr, .. } => repr,
                },
            ),
        );
    assert(shown_fields(captured.example) =~= Seq::new(
        captured.example.fields.len(),
        |k: int| as_printed(captured.example.fields[k]),
    ));
    assert(shown_fields(captured.prediction.example) =~= Seq::new(
        captured.prediction.example.fields.len(),
        |k: int| as_printed(captured.prediction.example.fields[k]),
    ));
}

/// Every run that a reflection can learn from is selected: one with a call under the signature that
/// may be reflected on, unless its answer did not parse and none of those calls shows why.
pub proof fn law_every_run_with_a_call_is_reflected_on(
    captured: Seq<CapturedModel>,
    signature: SignatureModel,
    failures: bool,
    draws: Seq<usize>,
    run: int,
    at: int,
)
    requires
        captured.len() <= usize::MAX,
        0 <= run < captured.len(),
        captured[run].trace.len() <= usize::MAX,
        0 <= at < captured[run].trace.len(),
        captured[run].trace[at].signature == signature,
        captured[run].trace[at].outputs is Answered || failures,
        captured[run].unparsed is None || captured[run].trace[at].outputs is Unparsed,
    ensures
        exists|i: int|
            0 <= i < selection(captured, signature, failures, draws).len() && (
            #[trigger] selection(captured, signature, failures, draws)[i]).0 == run,
    decreases captured.len(),
{
    let selected = selection(captured, signature, failures, draws);
    let before = selection(captured.drop_last(), signature, failures, draws);
    if run == captured.len() - 1 {
        let here = captured[run];
        let calls = instances(here.trace, signature, failures);
        lemma_every_instance_is_listed(here.trace, signature, failures, at);
        lemma_first_failure(here.trace, calls);
        let k = choose|k: int| 0 <= k < calls.len() && calls[k] == at;
        assert(here.trace[calls[k] as int] == here.trace[at]);
        assert(selected[before.len() as int].0 == run);
    } else {
        assert(captured.drop_last()[run] == captured[run]);
        law_every_run_with_a_call_is_reflected_on(
            captured.drop_last(),
            signature,
            failures,
            draws,
            run,
            at,
        );
        let i = choose|i: int| 0 <= i < before.len() && (#[trigger] before[i]).0 == run;
        assert(selected[i] == before[i]);
    }
}

/// Of several failed calls it is the first that is reflected on.
pub proof fn law_the_first_failure_is_preferred(
    captured: CapturedModel,
    signature: SignatureModel,
    failures: bool,
    earlier: int,
)
    requires
        captured.trace.len() <= usize::MAX,
        choice(captured, signature, failures) is Failure,
        0 <= earlier < choice(captured, signature, failures)->step,
    ensures
        !(captured.trace[earlier].signature == signature && captured.trace[earlier].outputs is Unparsed),
{
    let calls = instances(captured.trace, signature, failures);
    let step = choice(captured, signature, failures)->step;
    lemma_instances(captured.trace, signature, failures);
    lemma_first_failure(captured.trace, calls);
    lemma_instances_ascend(captured.trace, signature, failures);
    if captured.trace[earlier].signature == signature && captured.trace[earlier].outputs is Unparsed {
        let at = choose|k: int| 0 <= k < calls.len() && calls[k] == step;
        assert(reflects(captured.trace[calls[at] as int], signature, failures));
        lemma_every_instance_is_listed(captured.trace, signature, failures, earlier);
        let k = choose|k: int| 0 <= k < calls.len() && calls[k] == earlier;
        lemma_first_failure_is_first(captured.trace, calls, k);
    }
}

proof fn lemma_instances_ascend(trace: Seq<StepModel>, signature: SignatureModel, failures: bool)
    requires
        trace.len() <= usize::MAX,
    ensures
        forall|i: int, j: int|
            0 <= i < j < instances(trace, signature, failures).len() ==> (#[trigger] instances(
                trace,
                signature,
                failures,
            )[i]) < (#[trigger] instances(trace, signature, failures)[j]),
    decreases trace.len(),
{
    if trace.len() > 0 {
        let before = instances(trace.drop_last(), signature, failures);
        let all = instances(trace, signature, failures);
        lemma_instances_ascend(trace.drop_last(), signature, failures);
        lemma_instances(trace.drop_last(), signature, failures);
        assert forall|i: int, j: int| 0 <= i < j < all.len() implies (#[trigger] all[i]) < (
        #[trigger] all[j]) by {
            assert(all[i] == before[i]);
            if j < before.len() {
                assert(all[j] == before[j]);
            }
        }
    }
}

proof fn lemma_first_failure_is_first(trace: Seq<StepModel>, calls: Seq<usize>, k: int)
    requires
        0 <= k < calls.len(),
        trace[calls[k] as int].outputs is Unparsed,
        forall|i: int, j: int|
            0 <= i < j < calls.len() ==> (#[trigger] calls[i]) < (#[trigger] calls[j]),
    ensures
        first_failure(trace, calls) is Some,
        first_failure(trace, calls)->0 <= calls[k],
    decreases calls.len(),
{
    let before = calls.drop_last();
    if k < before.len() {
        assert(before[k] == calls[k]);
        assert forall|i: int, j: int| 0 <= i < j < before.len() implies (#[trigger] before[i]) < (
        #[trigger] before[j]) by {
            assert(calls[i] < calls[j]);
        }
        lemma_first_failure_is_first(trace, before, k);
    } else {
        lemma_first_failure(trace, before);
        match first_failure(trace, before) {
            Some(step) => {
                let i = choose|i: int| 0 <= i < before.len() && before[i] == step;
                assert(calls[i] < calls[k]);
            },
            None => {},
        }
    }
}

/// Every selected call was made under the signature reflected on, one per run, and parsed unless
/// failures are wanted.
pub proof fn law_a_selected_call_belongs_to_the_signature(
    captured: Seq<CapturedModel>,
    signature: SignatureModel,
    failures: bool,
    draws: Seq<usize>,
    i: int,
)
    requires
        drawn_for(draws, draws_needed(captured, signature, failures)),
        captured.len() <= usize::MAX,
        forall|k: int| 0 <= k < captured.len() ==> (#[trigger] captured[k]).trace.len() <= usize::MAX,
        0 <= i < selection(captured, signature, failures, draws).len(),
    ensures
        ({
            let (run, call) = selection(captured, signature, failures, draws)[i];
            &&& run < captured.len()
            &&& call < captured[run as int].trace.len()
            &&& reflects(captured[run as int].trace[call as int], signature, failures)
            &&& forall|j: int|
                0 <= j < i ==> (#[trigger] selection(captured, signature, failures, draws)[j]).0
                    < run
        }),
{
    lemma_selection(captured, signature, failures, draws, captured.len() as int);
    assert(captured.take(captured.len() as int) =~= captured);
}

proof fn lemma_selection(
    captured: Seq<CapturedModel>,
    signature: SignatureModel,
    failures: bool,
    draws: Seq<usize>,
    n: int,
)
    requires
        drawn_for(draws, draws_needed(captured, signature, failures)),
        captured.len() <= usize::MAX,
        forall|k: int| 0 <= k < captured.len() ==> (#[trigger] captured[k]).trace.len() <= usize::MAX,
        0 <= n <= captured.len(),
    ensures
        ({
            let selected = selection(captured.take(n), signature, failures, draws);
            &&& forall|i: int|
                0 <= i < selected.len() ==> {
                    let (run, call) = #[trigger] selected[i];
                    &&& run < n
                    &&& call < captured[run as int].trace.len()
                    &&& reflects(captured[run as int].trace[call as int], signature, failures)
                }
            &&& forall|i: int, j: int|
                0 <= j < i < selected.len() ==> (#[trigger] selected[j]).0 < (
                #[trigger] selected[i]).0
        }),
    decreases n,
{
    if n > 0 {
        let here = captured.take(n);
        let earlier = captured.take(n - 1);
        assert(here.drop_last() =~= earlier);
        assert(here.last() == captured[n - 1]);
        lemma_selection(captured, signature, failures, draws, n - 1);
        lemma_draws_needed_grow(captured, signature, failures, n);
        let run = captured[n - 1];
        let calls = instances(run.trace, signature, failures);
        lemma_instances(run.trace, signature, failures);
        lemma_first_failure(run.trace, calls);
        let before = selection(earlier, signature, failures, draws);
        let selected = selection(here, signature, failures, draws);
        match choice(run, signature, failures) {
            ChoiceModel::Failure { step } => {
                let k = choose|k: int| 0 <= k < calls.len() && calls[k] == step;
                assert(reflects(run.trace[calls[k] as int], signature, failures));
            },
            ChoiceModel::Draw { calls: offered } => {
                let used = draws_needed(earlier, signature, failures).len() as int;
                assert(draws_needed(here, signature, failures)[used] == offered.len());
                assert(draws[used] < draws_needed(captured, signature, failures)[used]);
                assert(reflects(
                    run.trace[calls[draws[used] as int] as int],
                    signature,
                    failures,
                ));
            },
            ChoiceModel::Nothing => {},
        }
        assert forall|i: int| 0 <= i < selected.len() implies {
            let (run, call) = #[trigger] selected[i];
            &&& run < n
            &&& call < captured[run as int].trace.len()
            &&& reflects(captured[run as int].trace[call as int], signature, failures)
        } by {
            if i < before.len() {
                assert(selected[i] == before[i]);
            }
        }
        assert forall|i: int, j: int| 0 <= j < i < selected.len() implies (#[trigger] selected[j]).0
            < (#[trigger] selected[i]).0 by {
            assert(selected[j] == before[j]);
            if i < before.len() {
                assert(selected[i] == before[i]);
            }
        }
    }
}

/// A failed call is preferred and takes no draw; with failures unwanted no failed call is ever
/// chosen.
pub proof fn law_a_failure_is_preferred_without_a_draw(
    captured: CapturedModel,
    signature: SignatureModel,
    failures: bool,
    at: int,
)
    requires
        captured.trace.len() <= usize::MAX,
        0 <= at < captured.trace.len(),
        captured.trace[at].signature == signature,
        captured.trace[at].outputs is Unparsed,
    ensures
        failures ==> choice(captured, signature, failures) is Failure,
        !failures ==> !(choice(captured, signature, failures) is Failure),
{
    let calls = instances(captured.trace, signature, failures);
    lemma_instances(captured.trace, signature, failures);
    lemma_first_failure(captured.trace, calls);
    if failures {
        lemma_every_instance_is_listed(captured.trace, signature, failures, at);
        let k = choose|k: int| 0 <= k < calls.len() && calls[k] == at;
        assert(captured.trace[calls[k] as int].outputs is Unparsed);
    } else {
        match first_failure(captured.trace, calls) {
            Some(step) => {
                let k = choose|k: int| 0 <= k < calls.len() && calls[k] == step;
                assert(reflects(captured.trace[calls[k] as int], signature, failures));
            },
            None => {},
        }
    }
}

proof fn lemma_every_instance_is_listed(
    trace: Seq<StepModel>,
    signature: SignatureModel,
    failures: bool,
    at: int,
)
    requires
        trace.len() <= usize::MAX,
        0 <= at < trace.len(),
        reflects(trace[at], signature, failures),
    ensures
        exists|k: int|
            0 <= k < instances(trace, signature, failures).len() && instances(
                trace,
                signature,
                failures,
            )[k] == at,
    decreases trace.len(),
{
    let all = instances(trace, signature, failures);
    if at == trace.len() - 1 {
        assert(all[all.len() - 1] == at);
    } else {
        lemma_every_instance_is_listed(trace.drop_last(), signature, failures, at);
        let before = instances(trace.drop_last(), signature, failures);
        let k = choose|k: int| 0 <= k < before.len() && before[k] == at;
        assert(all[k] == at);
    }
}

} // verus!
