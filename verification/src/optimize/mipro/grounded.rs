//! Proposing every predictor's instruction candidates: how many are asked for, in what order, and
//! what grounds each one.
use vstd::prelude::*;
use vstd::string::StringExecFns;
use crate::double::Double;
use crate::duplicate::{append, Duplicate};
use crate::entries::{has, lookup};
use crate::example::{Example, ExampleModel, Value, ValueModel};
use crate::optimize::draw::{least, lesser};
use crate::optimize::mipro::proposer::InstructionInputs;
use crate::program::Sampling;
use crate::signature::{infer_prefix, prefix_words, FieldModel, Signature, SignatureModel};
use crate::text::{join, joined};

verus! {

/// How many demos a proposal is shown, whichever set they come from.
pub const DEMOS_IN_CONTEXT: usize = 3;

/// How many writing tips there are to draw from.
pub const TIP_COUNT: usize = 6;

/// What a proposal is shown where there are no demos.
pub open spec fn no_demos() -> Seq<char> {
    "No task demos provided."@
}

/// The writing tips, in the order a draw indexes them. The first is no tip at all.
pub open spec fn tip_text(index: nat) -> Seq<char> {
    if index == 0 {
        ""@
    } else if index == 1 {
        "Don't be afraid to be creative when creating the new instruction!"@
    } else if index == 2 {
        "Keep the instruction clear and concise."@
    } else if index == 3 {
        "Make sure your instruction is very informative and descriptive."@
    } else if index == 4 {
        "The instruction should include a high stakes scenario in which the LM must solve the task!"@
    } else {
        "Include a persona that is relevant to the task in the instruction (ie. \"You are a ...\")"@
    }
}

/// [`tip_text`], as a string.
pub fn tip(index: usize) -> (r: &'static str)
    requires
        index < TIP_COUNT,
    ensures
        r@ == tip_text(index as nat),
{
    if index == 0 {
        ""
    } else if index == 1 {
        "Don't be afraid to be creative when creating the new instruction!"
    } else if index == 2 {
        "Keep the instruction clear and concise."
    } else if index == 3 {
        "Make sure your instruction is very informative and descriptive."
    } else if index == 4 {
        "The instruction should include a high stakes scenario in which the LM must solve the task!"
    } else {
        "Include a persona that is relevant to the task in the instruction (ie. \"You are a ...\")"
    }
}

/// The label of a field: the one set for it, or its name as words and a colon.
pub open spec fn label(field: FieldModel) -> Seq<char> {
    match field.prefix {
        Some(prefix) => prefix,
        None => prefix_words(field.name) + ":"@,
    }
}

/// What a demo shows of a field: a string as it is, anything else as Python prints it, and `None`
/// for a field the demo never recorded.
pub open spec fn shown_value(demo: ExampleModel, name: Seq<char>) -> Seq<char> {
    match demo.get(name) {
        Some(ValueModel::Text(text)) => text,
        Some(ValueModel::Other { repr, .. }) => repr,
        None => "None"@,
    }
}

/// One field of a demo on a line of its own.
pub open spec fn field_line(field: FieldModel, demo: ExampleModel) -> Seq<char> {
    label(field) + " "@ + shown_value(demo, field.name)
}

/// One demo, a line for each field of the signature in its own order.
pub open spec fn demo_text(signature: SignatureModel, demo: ExampleModel) -> Seq<char> {
    let fields = signature.fields();
    joined(Seq::new(fields.len(), |i: int| field_line(fields[i], demo)), "\n"@)
}

/// Whether a demo was earned by the program rather than drawn from the trainset.
pub open spec fn is_augmented(demo: ExampleModel) -> bool {
    has(demo.fields, "augmented"@)
}

/// The earned demos of several sets, in order.
pub open spec fn earned_demos(sets: Seq<Seq<ExampleModel>>) -> Seq<ExampleModel>
    decreases sets.len(),
{
    if sets.len() == 0 {
        Seq::empty()
    } else {
        earned_demos(sets.drop_last()) + sets.last().filter(|d: ExampleModel| is_augmented(d))
    }
}

/// The sets from `chosen` on, and then the ones before it.
pub open spec fn rotated<A>(sets: Seq<A>, chosen: int) -> Seq<A> {
    sets.skip(chosen) + sets.take(chosen)
}

/// The demos one candidate is shown: the first few earned ones, read from its own set on.
pub open spec fn shown_demos(sets: Seq<Seq<ExampleModel>>, chosen: int) -> Seq<ExampleModel> {
    let earned = earned_demos(rotated(sets, chosen));
    earned.take(least(DEMOS_IN_CONTEXT as nat, earned.len()) as int)
}

/// What one candidate's proposal is shown of its demos. The first candidate is shown none.
pub open spec fn demos_text(
    signature: SignatureModel,
    sets: Seq<Seq<ExampleModel>>,
    chosen: int,
) -> Seq<char> {
    let shown = shown_demos(sets, chosen);
    if chosen == 0 || sets.len() == 0 || shown.len() == 0 {
        no_demos()
    } else {
        joined(Seq::new(shown.len(), |i: int| demo_text(signature, shown[i])), "\n\n"@) + "\n\n"@
    }
}

/// One field's line, written from its parts.
fn write_line(name: &str, prefix: &Option<String>, demo: &Example) -> (r: String)
    ensures
        r@ == (match prefix {
            Some(text) => text@,
            None => prefix_words(name@) + ":"@,
        }) + " "@ + shown_value(demo.deep_view(), name@),
{
    let mut r: String = match prefix {
        Some(text) => text.clone(),
        None => {
            let mut inferred = infer_prefix(name);
            inferred.append(":");
            inferred
        },
    };
    r.append(" ");
    match demo.get(name) {
        Some(value) => match value {
            Value::Text(text) => r.append(text.as_str()),
            Value::Other { repr, .. } => r.append(repr.as_str()),
        },
        None => r.append("None"),
    }
    r
}

/// [`demo_text`], written.
pub fn example_string(signature: &Signature, demo: &Example) -> (r: String)
    ensures
        r@ == demo_text(signature.deep_view(), demo.deep_view()),
{
    let mut lines: Vec<String> = Vec::new();
    let ghost fields = signature.deep_view().fields();
    let ghost all = Seq::new(fields.len(), |i: int| field_line(fields[i], demo.deep_view()));
    let mut i: usize = 0;
    proof {
        assert(lines.deep_view() =~= all.take(0));
    }
    while i < signature.inputs.len()
        invariant
            i <= signature.inputs@.len(),
            fields == signature.deep_view().fields(),
            all == Seq::new(fields.len(), |i: int| field_line(fields[i], demo.deep_view())),
            lines.deep_view() == all.take(i as int),
        decreases signature.inputs@.len() - i,
    {
        let field = &signature.inputs[i];
        append(&mut lines, write_line(field.name.as_str(), &field.prefix, demo));
        proof {
            assert(fields[i as int] == field.deep_view());
            assert(all.take(i + 1) =~= all.take(i as int).push(all[i as int]));
        }
        i = i + 1;
    }
    let mut j: usize = 0;
    while j < signature.outputs.len()
        invariant
            i == signature.inputs@.len(),
            j <= signature.outputs@.len(),
            fields == signature.deep_view().fields(),
            all == Seq::new(fields.len(), |i: int| field_line(fields[i], demo.deep_view())),
            lines.deep_view() == all.take(i + j),
        decreases signature.outputs@.len() - j,
    {
        let field = &signature.outputs[j];
        append(&mut lines, write_line(field.name.as_str(), &field.prefix, demo));
        proof {
            assert(fields[i + j] == field.deep_view());
            assert(all.take(i + j + 1) =~= all.take(i + j).push(all[i + j]));
        }
        j = j + 1;
    }
    proof {
        assert(all.take(i + j) =~= all);
    }
    join(&lines, "\n")
}

/// Adds the earned demos of one set to those gathered.
fn gather(gathered: &mut Vec<Example>, set: &Vec<Example>)
    ensures
        final(gathered).deep_view() == old(gathered).deep_view() + set.deep_view().filter(
            |d: ExampleModel| is_augmented(d),
        ),
{
    let mut i: usize = 0;
    let ghost keep = |d: ExampleModel| is_augmented(d);
    proof {
        assert(set.deep_view().take(0) =~= Seq::empty());
        reveal(Seq::filter);
        assert(old(gathered).deep_view() + set.deep_view().take(0).filter(keep) =~= old(
            gathered,
        ).deep_view());
    }
    while i < set.len()
        invariant
            i <= set@.len(),
            keep == (|d: ExampleModel| is_augmented(d)),
            gathered.deep_view() == old(gathered).deep_view() + set.deep_view().take(
                i as int,
            ).filter(keep),
        decreases set@.len() - i,
    {
        let ghost before = set.deep_view().take(i as int);
        let ghost after = set.deep_view().take(i + 1);
        let ghost was = gathered.deep_view();
        proof {
            assert(after.drop_last() =~= before);
            reveal(Seq::filter);
        }
        if set[i].has("augmented") {
            append(gathered, set[i].duplicate());
            proof {
                assert(gathered.deep_view() =~= old(gathered).deep_view() + after.filter(keep));
            }
        }
        i = i + 1;
    }
    proof {
        assert(set.deep_view().take(i as int) =~= set.deep_view());
    }
}

/// [`demos_text`], written.
pub fn task_demos(signature: &Signature, sets: &Vec<Vec<Example>>, chosen: usize) -> (r: String)
    requires
        chosen <= sets@.len(),
    ensures
        r@ == demos_text(signature.deep_view(), sets.deep_view(), chosen as int),
{
    if chosen == 0 || sets.len() == 0 {
        return "No task demos provided.".to_owned();
    }
    let ghost order = rotated(sets.deep_view(), chosen as int);
    let mut gathered: Vec<Example> = Vec::new();
    let mut i: usize = 0;
    proof {
        assert(gathered.deep_view() =~= earned_demos(order.take(0)));
    }
    while i < sets.len()
        invariant
            i <= sets@.len(),
            0 < chosen <= sets@.len(),
            order == rotated(sets.deep_view(), chosen as int),
            gathered.deep_view() == earned_demos(order.take(i as int)),
        decreases sets@.len() - i,
    {
        let left: usize = sets.len() - chosen;
        let at: usize = if i < left {
            chosen + i
        } else {
            i - left
        };
        proof {
            assert(order.take(i + 1).drop_last() =~= order.take(i as int));
            assert(order[i as int] == sets.deep_view()[at as int]);
        }
        gather(&mut gathered, &sets[at]);
        i = i + 1;
    }
    proof {
        assert(order.take(i as int) =~= order);
    }
    let count: usize = lesser(DEMOS_IN_CONTEXT, gathered.len());
    let ghost shown = shown_demos(sets.deep_view(), chosen as int);
    if count == 0 {
        proof {
            assert(shown.len() == 0);
        }
        return "No task demos provided.".to_owned();
    }
    let ghost texts = Seq::new(
        shown.len(),
        |i: int| demo_text(signature.deep_view(), shown[i]),
    );
    let mut parts: Vec<String> = Vec::new();
    let mut k: usize = 0;
    proof {
        assert(parts.deep_view() =~= texts.take(0));
    }
    while k < count
        invariant
            k <= count <= gathered@.len(),
            shown == gathered.deep_view().take(count as int),
            texts == Seq::new(shown.len(), |i: int| demo_text(signature.deep_view(), shown[i])),
            parts.deep_view() == texts.take(k as int),
        decreases count - k,
    {
        append(&mut parts, example_string(signature, &gathered[k]));
        proof {
            assert(texts.take(k + 1) =~= texts.take(k as int).push(texts[k as int]));
        }
        k = k + 1;
    }
    proof {
        assert(texts.take(k as int) =~= texts);
    }
    let mut r = join(&parts, "\n\n");
    r.append("\n\n");
    r
}

/// What grounds the proposals of one run.
#[derive(Debug)]
pub struct GroundedProposer {
    pub dataset_summary: Option<String>,
    pub program_code: Option<String>,
    pub tip_aware: bool,
    pub init_temperature: Double,
    pub fewshot_aware: bool,
}

/// One proposal to ask for.
#[derive(Debug)]
pub struct ProposalAsk {
    pub tip: Option<String>,
    pub sampling: Sampling,
    pub inputs: InstructionInputs,
    pub demos: String,
    pub summary: String,
}

/// How many proposals each predictor gets: the number asked for, and no more than there are demo
/// sets where the proposals are shown them.
pub open spec fn proposals_each(
    fewshot_aware: bool,
    num_candidates: nat,
    demo_sets: Option<Seq<Seq<Seq<ExampleModel>>>>,
) -> nat {
    match demo_sets {
        Some(sets) => if fewshot_aware && sets.len() > 0 {
            least(num_candidates, sets[0].len())
        } else {
            num_candidates
        },
        None => num_candidates,
    }
}

impl GroundedProposer {
    /// The tip a draw lands on, where tips are on and it is one.
    pub open spec fn tip_for(self, drawn: nat) -> Option<Seq<char>> {
        if self.tip_aware && drawn != 0 {
            Some(tip_text(drawn))
        } else {
            None
        }
    }

    /// [`proposals_each`], computed.
    pub fn per_predictor(
        &self,
        num_candidates: usize,
        demo_sets: &Option<Vec<Vec<Vec<Example>>>>,
    ) -> (r: usize)
        ensures
            r == proposals_each(self.fewshot_aware, num_candidates as nat, demo_sets.deep_view()),
    {
        match demo_sets {
            Some(sets) => {
                if self.fewshot_aware && sets.len() > 0 {
                    proof {
                        assert(sets.deep_view()[0].len() == sets@[0]@.len());
                    }
                    lesser(num_candidates, sets[0].len())
                } else {
                    num_candidates
                }
            },
            None => num_candidates,
        }
    }

    /// The tip of one proposal. With tips off nothing was drawn and there is none; the empty tip
    /// reads as none too.
    pub fn select_tip(&self, drawn: usize) -> (r: Option<&'static str>)
        requires
            self.tip_aware ==> drawn < TIP_COUNT,
        ensures
            match r {
                Some(text) => self.tip_for(drawn as nat) == Some(text@),
                None => self.tip_for(drawn as nat) is None,
            },
    {
        if self.tip_aware && drawn != 0 {
            Some(tip(drawn))
        } else {
            None
        }
    }

    /// One proposal for one predictor: its tip and rollout as they were drawn, the temperature
    /// proposals are made at, and the demos of its own candidate where they are shown.
    pub fn ask(
        &self,
        signature: &Signature,
        demo_sets: &Option<Vec<Vec<Vec<Example>>>>,
        predictor: usize,
        chosen: usize,
        tip_drawn: usize,
        rollout: u64,
    ) -> (r: ProposalAsk)
        requires
            self.tip_aware ==> tip_drawn < TIP_COUNT,
            match demo_sets {
                Some(sets) => self.fewshot_aware ==> predictor < sets@.len() && chosen
                    <= sets@[predictor as int]@.len(),
                None => true,
            },
        ensures
            r.tip.deep_view() == self.tip_for(tip_drawn as nat),
            r.sampling == (Sampling {
                temperature: Some(self.init_temperature),
                rollout_id: Some(rollout),
                completions: None,
            }),
            r.inputs == (InstructionInputs {
                dataset_summary: self.dataset_summary is Some,
                program_aware: self.program_code is Some,
                instruct_history: false,
                tip: self.tip_for(tip_drawn as nat) is Some,
            }),
            r.demos@ == match demo_sets {
                Some(sets) => if self.fewshot_aware {
                    demos_text(
                        signature.deep_view(),
                        sets.deep_view()[predictor as int],
                        chosen as int,
                    )
                } else {
                    no_demos()
                },
                None => no_demos(),
            },
            r.summary@ == match self.dataset_summary {
                Some(summary) => summary@,
                None => Seq::empty(),
            },
    {
        let tip: Option<String> = match self.select_tip(tip_drawn) {
            Some(text) => Some(text.to_owned()),
            None => None,
        };
        let inputs = InstructionInputs {
            dataset_summary: self.dataset_summary.is_some(),
            program_aware: self.program_code.is_some(),
            instruct_history: false,
            tip: tip.is_some(),
        };
        let sampling = Sampling {
            temperature: Some(self.init_temperature),
            ..Sampling::rollout(rollout)
        };
        let demos: String = match demo_sets {
            Some(sets) => {
                if self.fewshot_aware {
                    task_demos(signature, &sets[predictor], chosen)
                } else {
                    "No task demos provided.".to_owned()
                }
            },
            None => "No task demos provided.".to_owned(),
        };
        let summary: String = match &self.dataset_summary {
            Some(summary) => summary.clone(),
            None => String::new(),
        };
        ProposalAsk { tip, sampling, inputs, demos, summary }
    }
}

/// The proposals of a run, as they arrive: one predictor after another, each candidate in turn.
#[derive(Debug)]
pub struct Proposing {
    /// Each predictor's instruction as it came.
    pub instructions: Vec<String>,
    pub per_predictor: usize,
    /// The candidates of the predictors that are done.
    pub proposed: Vec<Vec<String>>,
    /// The candidates of the one in progress.
    pub current: Vec<String>,
}

/// What a [`Proposing`] holds.
#[verifier::ext_equal]
pub struct ProposingModel {
    pub instructions: Seq<Seq<char>>,
    pub per_predictor: nat,
    pub proposed: Seq<Seq<Seq<char>>>,
    pub current: Seq<Seq<char>>,
}

impl DeepView for Proposing {
    type V = ProposingModel;

    open spec fn deep_view(&self) -> ProposingModel {
        ProposingModel {
            instructions: self.instructions.deep_view(),
            per_predictor: self.per_predictor as nat,
            proposed: self.proposed.deep_view(),
            current: self.current.deep_view(),
        }
    }
}

/// A predictor's candidates, the first of them its instruction as it came.
pub open spec fn with_baseline(candidates: Seq<Seq<char>>, instruction: Seq<char>) -> Seq<
    Seq<char>,
> {
    if candidates.len() == 0 {
        candidates
    } else {
        candidates.update(0, instruction)
    }
}

impl ProposingModel {
    /// Whether every predictor has its candidates.
    pub open spec fn is_done(self) -> bool {
        self.proposed.len() == self.instructions.len()
    }

    /// Which predictor and which of its candidates is asked for next.
    pub open spec fn next(self) -> Option<(int, int)> {
        if self.is_done() {
            None
        } else {
            Some((self.proposed.len() as int, self.current.len() as int))
        }
    }

    /// A proposal arrived. The last of a predictor's completes its candidates.
    pub open spec fn answered(self, instruction: Seq<char>) -> ProposingModel {
        let current = self.current.push(instruction);
        if current.len() == self.per_predictor {
            ProposingModel {
                proposed: self.proposed.push(
                    with_baseline(current, self.instructions[self.proposed.len() as int]),
                ),
                current: Seq::empty(),
                ..self
            }
        } else {
            ProposingModel { current, ..self }
        }
    }

    /// What holds between two proposals: each done predictor has as many candidates as were asked
    /// for, the first being its own instruction.
    pub open spec fn well_formed(self) -> bool {
        &&& self.proposed.len() <= self.instructions.len()
        &&& !self.is_done() ==> self.current.len() < self.per_predictor
        &&& self.is_done() ==> self.current.len() == 0
        &&& forall|p: int|
            0 <= p < self.proposed.len() ==> {
                &&& (#[trigger] self.proposed[p]).len() == self.per_predictor
                &&& self.per_predictor > 0 ==> self.proposed[p][0] == self.instructions[p]
            }
    }
}

impl Proposing {
    /// No proposals yet. Where none are to be asked for, every predictor's candidates are none.
    pub fn begin(instructions: Vec<String>, per_predictor: usize) -> (r: Proposing)
        ensures
            r.deep_view().well_formed(),
            r.deep_view() == (ProposingModel {
                instructions: instructions.deep_view(),
                per_predictor: per_predictor as nat,
                proposed: if per_predictor == 0 {
                    Seq::new(instructions@.len(), |p: int| Seq::<Seq<char>>::empty())
                } else {
                    Seq::empty()
                },
                current: Seq::empty(),
            }),
    {
        let mut proposed: Vec<Vec<String>> = Vec::new();
        if per_predictor == 0 {
            while proposed.len() < instructions.len()
                invariant
                    proposed@.len() <= instructions@.len(),
                    proposed.deep_view() =~= Seq::new(
                        proposed@.len(),
                        |p: int| Seq::<Seq<char>>::empty(),
                    ),
                decreases instructions@.len() - proposed@.len(),
            {
                let none: Vec<String> = Vec::new();
                proof {
                    assert(none.deep_view() =~= Seq::empty());
                }
                append(&mut proposed, none);
            }
        } else {
            proof {
                assert(proposed.deep_view() =~= Seq::empty());
            }
        }
        let current: Vec<String> = Vec::new();
        proof {
            assert(current.deep_view() =~= Seq::empty());
        }
        Proposing { instructions, per_predictor, proposed, current }
    }

    /// Which predictor and which of its candidates is asked for next.
    pub fn next(&self) -> (r: Option<(usize, usize)>)
        ensures
            match r {
                Some((p, k)) => self.deep_view().next() == Some((p as int, k as int)),
                None => self.deep_view().next() is None,
            },
    {
        if self.proposed.len() == self.instructions.len() {
            None
        } else {
            Some((self.proposed.len(), self.current.len()))
        }
    }

    /// A proposal arrived.
    pub fn answered(&mut self, instruction: String)
        requires
            old(self).deep_view().well_formed(),
            !old(self).deep_view().is_done(),
        ensures
            final(self).deep_view() == old(self).deep_view().answered(instruction@),
            final(self).deep_view().well_formed(),
    {
        append(&mut self.current, instruction);
        if self.current.len() == self.per_predictor {
            let mut done: Vec<String> = self.current.duplicate();
            let at: usize = self.proposed.len();
            let ghost before = done.deep_view();
            let own = self.instructions[at].clone();
            done[0] = own;
            proof {
                assert(done.deep_view() =~= with_baseline(before, own@));
            }
            append(&mut self.proposed, done);
            self.current = Vec::new();
            proof {
                assert(self.current.deep_view() =~= Seq::empty());
            }
        }
    }
}

/// However the proposals read, each predictor keeps its own instruction as its first candidate.
pub proof fn law_the_baseline_is_always_a_candidate(state: ProposingModel, p: int)
    requires
        state.well_formed(),
        state.is_done(),
        state.per_predictor > 0,
        0 <= p < state.instructions.len(),
    ensures
        state.proposed[p].len() == state.per_predictor,
        state.proposed[p][0] == state.instructions[p],
{
}

/// No proposal is shown a demo that the program did not earn, nor more than three.
pub proof fn law_only_earned_demos_are_shown(sets: Seq<Seq<ExampleModel>>, chosen: int, i: int)
    requires
        0 <= i < shown_demos(sets, chosen).len(),
    ensures
        shown_demos(sets, chosen).len() <= DEMOS_IN_CONTEXT,
        is_augmented(shown_demos(sets, chosen)[i]),
{
    lemma_earned_are_augmented(rotated(sets, chosen), i);
}

proof fn lemma_earned_are_augmented(sets: Seq<Seq<ExampleModel>>, i: int)
    requires
        0 <= i < earned_demos(sets).len(),
    ensures
        is_augmented(earned_demos(sets)[i]),
    decreases sets.len(),
{
    let before = earned_demos(sets.drop_last());
    if i < before.len() {
        lemma_earned_are_augmented(sets.drop_last(), i);
    } else {
        let keep = |d: ExampleModel| is_augmented(d);
        sets.last().lemma_filter_pred(keep, i - before.len());
    }
}

/// A demo is shown by every field of its signature, inputs first, each on a line of its own: the
/// label that was set, or else the name as words, and what the demo holds.
pub proof fn law_every_field_of_a_demo_is_shown(signature: SignatureModel, demo: ExampleModel)
    ensures
        ({
            let fields = signature.inputs + signature.outputs;
            demo_text(signature, demo) == joined(
                Seq::new(
                    fields.len(),
                    |i: int|
                        (match fields[i].prefix {
                            Some(prefix) => prefix,
                            None => prefix_words(fields[i].name) + ":"@,
                        }) + " "@ + match demo.get(fields[i].name) {
                            Some(ValueModel::Text(text)) => text,
                            Some(ValueModel::Other { repr, .. }) => repr,
                            None => "None"@,
                        },
                ),
                "\n"@,
            )
        }),
{
    let fields = signature.inputs + signature.outputs;
    let lines = Seq::new(
        fields.len(),
        |i: int|
            (match fields[i].prefix {
                Some(prefix) => prefix,
                None => prefix_words(fields[i].name) + ":"@,
            }) + " "@ + match demo.get(fields[i].name) {
                Some(ValueModel::Text(text)) => text,
                Some(ValueModel::Other { repr, .. }) => repr,
                None => "None"@,
            },
    );
    assert(lines =~= Seq::new(fields.len(), |i: int| field_line(fields[i], demo)));
}

/// Of several sets every earned demo counts, in order, and no other: a set more adds its own.
pub proof fn law_every_earned_demo_counts(
    sets: Seq<Seq<ExampleModel>>,
    set: Seq<ExampleModel>,
    demo: ExampleModel,
)
    ensures
        earned_demos(Seq::empty()).len() == 0,
        earned_demos(sets.push(Seq::empty())) == earned_demos(sets),
        earned_demos(sets.push(set.push(demo))) == if lookup(demo.fields, "augmented"@) is Some {
            earned_demos(sets.push(set)).push(demo)
        } else {
            earned_demos(sets.push(set))
        },
{
    reveal(Seq::filter);
    let longer = set.push(demo);
    assert(sets.push(set).drop_last() =~= sets);
    assert(sets.push(longer).drop_last() =~= sets);
    assert(sets.push(Seq::empty()).drop_last() =~= sets);
    assert(longer.drop_last() =~= set);
    let keep = |d: ExampleModel| is_augmented(d);
    let before = earned_demos(sets);
    assert(before + set.filter(keep).push(demo) =~= (before + set.filter(keep)).push(demo));
    assert(earned_demos(sets.push(Seq::empty())) =~= before);
}

/// A candidate reads the sets from its own on, going round to the ones before, and is shown the first
/// three earned demos it meets, or all where there are fewer. The first candidate is shown none.
pub proof fn law_a_candidate_reads_the_sets_from_its_own_on(
    signature: SignatureModel,
    sets: Seq<Seq<ExampleModel>>,
    chosen: int,
    k: int,
)
    requires
        0 <= chosen < sets.len(),
        0 <= k < sets.len(),
    ensures
        ({
            let earned = earned_demos(rotated(sets, chosen));
            let shown = shown_demos(sets, chosen);
            &&& rotated(sets, chosen).len() == sets.len()
            &&& rotated(sets, chosen)[k] == sets[if chosen + k < sets.len() {
                chosen + k
            } else {
                chosen + k - sets.len()
            }]
            &&& shown.len() == if earned.len() < 3 {
                earned.len()
            } else {
                3
            }
            &&& forall|d: int| 0 <= d < shown.len() ==> #[trigger] shown[d] == earned[d]
            &&& demos_text(signature, sets, 0) == "No task demos provided."@
            &&& chosen > 0 && shown.len() > 0 ==> demos_text(signature, sets, chosen) == joined(
                Seq::new(shown.len(), |i: int| demo_text(signature, shown[i])),
                "\n\n"@,
            ) + "\n\n"@
            &&& shown.len() == 0 ==> demos_text(signature, sets, chosen)
                == "No task demos provided."@
        }),
{
}

/// Every predictor gets as many proposals as were asked for, and where they are shown demos no more
/// than there are demo sets.
pub proof fn law_proposals_are_as_many_as_asked_for(
    fewshot_aware: bool,
    num_candidates: nat,
    demo_sets: Option<Seq<Seq<Seq<ExampleModel>>>>,
)
    ensures
        proposals_each(fewshot_aware, num_candidates, demo_sets) <= num_candidates,
        demo_sets is None || !fewshot_aware ==> proposals_each(
            fewshot_aware,
            num_candidates,
            demo_sets,
        ) == num_candidates,
        fewshot_aware && demo_sets is Some && demo_sets->0.len() > 0 ==> {
            let each = proposals_each(fewshot_aware, num_candidates, demo_sets);
            each <= demo_sets->0[0].len() && (each == num_candidates || each
                == demo_sets->0[0].len())
        },
{
}

/// Every proposal becomes a candidate of the predictor it was asked for, in its place, but for the
/// first, whose place the predictor's own instruction has. Predictors are completed in order.
pub proof fn law_every_proposal_becomes_a_candidate(
    state: ProposingModel,
    instruction: Seq<char>,
    k: int,
)
    requires
        state.well_formed(),
        !state.is_done(),
    ensures
        ({
            let after = state.answered(instruction);
            let given = state.current.push(instruction);
            let p = state.proposed.len() as int;
            &&& state.next() == Some((p, state.current.len() as int))
            &&& given.len() < state.per_predictor ==> after.current == given && after.proposed
                == state.proposed
            &&& given.len() == state.per_predictor ==> {
                &&& after.current.len() == 0
                &&& after.proposed.len() == p + 1
                &&& after.proposed.take(p) == state.proposed
                &&& after.proposed[p].len() == given.len()
                &&& after.proposed[p][0] == state.instructions[p]
                &&& 0 < k < given.len() ==> after.proposed[p][k] == given[k]
            }
            &&& after.instructions == state.instructions
        }),
{
    let after = state.answered(instruction);
    if state.current.len() + 1 == state.per_predictor {
        assert(after.proposed.take(state.proposed.len() as int) =~= state.proposed);
    }
}

/// A tip is given exactly where tips are on and the draw is one, and each draw gives a tip of its own.
pub proof fn law_each_draw_gives_its_own_tip(proposer: GroundedProposer, a: nat, b: nat)
    requires
        a < 6,
        b < 6,
    ensures
        proposer.tip_for(a) is Some <==> proposer.tip_aware && a != 0,
        proposer.tip_aware && a != 0 && proposer.tip_for(a) == proposer.tip_for(b) ==> a == b,
{
    reveal_strlit("Don't be afraid to be creative when creating the new instruction!");
    reveal_strlit("Keep the instruction clear and concise.");
    reveal_strlit("Make sure your instruction is very informative and descriptive.");
    reveal_strlit(
        "The instruction should include a high stakes scenario in which the LM must solve the task!",
    );
    reveal_strlit(
        "Include a persona that is relevant to the task in the instruction (ie. \"You are a ...\")",
    );
    if proposer.tip_aware && a != 0 && proposer.tip_for(a) == proposer.tip_for(b) {
        assert(tip_text(a)[0] == tip_text(b)[0]);
    }
}

} // verus!
