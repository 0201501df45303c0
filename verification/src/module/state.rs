//! A compiled program as it is saved: every predictor's instructions, fields and demos under its
//! name, and the release whose format the file is in.
use vstd::prelude::*;
use vstd::string::StringExecFns;
use crate::duplicate::{append, Duplicate};
use crate::entries::{get, lookup};
use crate::example::{Example, ExampleModel, Value, ValueModel};
use crate::module::trust::Trust;
use crate::program::{PredictorModel, Program};
use crate::signature::{
    infer_prefix, names_of, prefix_words, FieldModel, InField, OutField, Signature, SignatureModel,
};
use crate::sorted::{ascending, file, filed, law_filing_keeps_the_order};
use crate::text::{shown_name, show_name, join, joined, same_text};

verus! {

/// The DSPy release whose file format a saved program is written in.
pub const DSPY_VERSION: &'static str = "3.3.0b1";

/// A model's settings, by name, each value in JSON.
pub type Block = Seq<(Seq<char>, Seq<char>)>;

/// One field as a saved program states it.
#[derive(Debug)]
pub struct FieldState {
    /// The field's label.
    pub prefix: String,
    /// The field's description, which is its name in placeholder form where none was given.
    pub description: String,
}

/// What a [`FieldState`] holds.
#[verifier::ext_equal]
pub struct FieldStateModel {
    pub prefix: Seq<char>,
    pub description: Seq<char>,
}

impl DeepView for FieldState {
    type V = FieldStateModel;

    open spec fn deep_view(&self) -> FieldStateModel {
        FieldStateModel { prefix: self.prefix@, description: self.description@ }
    }
}

impl Duplicate for FieldState {
    fn duplicate(&self) -> (r: Self) {
        FieldState { prefix: self.prefix.clone(), description: self.description.clone() }
    }
}

/// A signature as a saved program states it: the instructions, and each field, inputs first.
#[derive(Debug)]
pub struct SignatureState {
    pub instructions: String,
    pub fields: Vec<FieldState>,
}

/// What a [`SignatureState`] holds.
#[verifier::ext_equal]
pub struct SignatureStateModel {
    pub instructions: Seq<char>,
    pub fields: Seq<FieldStateModel>,
}

impl DeepView for SignatureState {
    type V = SignatureStateModel;

    open spec fn deep_view(&self) -> SignatureStateModel {
        SignatureStateModel {
            instructions: self.instructions@,
            fields: self.fields.deep_view(),
        }
    }
}

impl Duplicate for SignatureState {
    fn duplicate(&self) -> (r: Self) {
        SignatureState {
            instructions: self.instructions.clone(),
            fields: self.fields.duplicate(),
        }
    }
}

/// How a field is saved: its label, or the one its name comes to, and its description, or its name
/// as a placeholder.
pub open spec fn saved_field(field: FieldModel) -> FieldStateModel {
    FieldStateModel {
        prefix: match field.prefix {
            Some(prefix) => prefix,
            None => prefix_words(field.name) + ":"@,
        },
        description: if field.desc.len() == 0 {
            "${"@ + field.name + "}"@
        } else {
            field.desc
        },
    }
}

/// How a signature is saved.
pub open spec fn saved_signature(signature: SignatureModel) -> SignatureStateModel {
    SignatureStateModel {
        instructions: signature.instructions,
        fields: Seq::new(
            signature.fields().len(),
            |i: int| saved_field(signature.fields()[i]),
        ),
    }
}

/// A field with the saved one written onto it.
pub open spec fn restored_field(field: FieldModel, saved: FieldStateModel) -> FieldModel {
    FieldModel { desc: saved.description, prefix: Some(saved.prefix), ..field }
}

/// Fields with the saved ones from `from` on written onto them, as far as there are any.
pub open spec fn restored_fields(
    fields: Seq<FieldModel>,
    saved: Seq<FieldStateModel>,
    from: int,
) -> Seq<FieldModel> {
    Seq::new(
        fields.len(),
        |i: int|
            if from + i < saved.len() {
                restored_field(fields[i], saved[from + i])
            } else {
                fields[i]
            },
    )
}

/// A signature with a saved one written onto it. Saved fields meet the live ones in order, inputs
/// first, and stop at the shorter.
pub open spec fn restored_signature(
    signature: SignatureModel,
    saved: SignatureStateModel,
) -> SignatureModel {
    SignatureModel {
        instructions: saved.instructions,
        inputs: restored_fields(signature.inputs, saved.fields, 0),
        outputs: restored_fields(signature.outputs, saved.fields, signature.inputs.len() as int),
    }
}

impl FieldState {
    /// A field as a saved program states it.
    pub fn of(name: &str, desc: &str, prefix: &Option<String>) -> (r: FieldState)
        ensures
            forall|kind: Seq<char>|
                r.deep_view() == #[trigger] saved_field(
                    (FieldModel { name: name@, desc: desc@, prefix: prefix.deep_view(), kind }),
                ),
    {
        let label: String = match prefix {
            Some(text) => text.clone(),
            None => {
                let mut inferred = infer_prefix(name);
                inferred.append(":");
                inferred
            },
        };
        let description: String = if desc.is_empty() {
            let mut placeholder: String = "${".to_owned();
            placeholder.append(name);
            placeholder.append("}");
            placeholder
        } else {
            desc.to_owned()
        };
        FieldState { prefix: label, description }
    }
}

impl SignatureState {
    /// A signature as a saved program states it.
    pub fn of(signature: &Signature) -> (r: SignatureState)
        ensures
            r.deep_view() == saved_signature(signature.deep_view()),
    {
        let mut fields: Vec<FieldState> = Vec::new();
        let ghost all = saved_signature(signature.deep_view()).fields;
        let mut i: usize = 0;
        proof {
            assert(fields.deep_view() =~= all.take(0));
        }
        while i < signature.inputs.len()
            invariant
                i <= signature.inputs@.len(),
                all == saved_signature(signature.deep_view()).fields,
                fields.deep_view() == all.take(i as int),
            decreases signature.inputs@.len() - i,
        {
            let field = &signature.inputs[i];
            append(
                &mut fields,
                FieldState::of(field.name.as_str(), field.desc.as_str(), &field.prefix),
            );
            proof {
                assert(signature.deep_view().fields()[i as int] == field.deep_view());
                assert(all.take(i + 1) =~= all.take(i as int).push(all[i as int]));
            }
            i = i + 1;
        }
        let mut j: usize = 0;
        while j < signature.outputs.len()
            invariant
                i == signature.inputs@.len(),
                j <= signature.outputs@.len(),
                all == saved_signature(signature.deep_view()).fields,
                fields.deep_view() == all.take(i + j),
            decreases signature.outputs@.len() - j,
        {
            let field = &signature.outputs[j];
            append(
                &mut fields,
                FieldState::of(field.name.as_str(), field.desc.as_str(), &field.prefix),
            );
            proof {
                assert(signature.deep_view().fields()[i + j] == field.deep_view());
                assert(all.take(i + j + 1) =~= all.take(i + j).push(all[i + j]));
            }
            j = j + 1;
        }
        proof {
            assert(all.take(i + j) =~= all);
        }
        SignatureState { instructions: signature.instructions.clone(), fields }
    }

    /// Writes this state back onto a signature.
    pub fn restore(&self, signature: &mut Signature)
        ensures
            final(signature).deep_view() == restored_signature(
                old(signature).deep_view(),
                self.deep_view(),
            ),
    {
        let ghost was = signature.deep_view();
        let ghost saved = self.deep_view().fields;
        let mut inputs: Vec<InField> = Vec::new();
        let ghost new_inputs = restored_fields(was.inputs, saved, 0);
        let ghost new_outputs = restored_fields(was.outputs, saved, was.inputs.len() as int);
        let mut i: usize = 0;
        proof {
            assert(inputs.deep_view() =~= new_inputs.take(0));
        }
        while i < signature.inputs.len()
            invariant
                i <= signature.inputs@.len(),
                *signature == *old(signature),
                was == signature.deep_view(),
                saved == self.deep_view().fields,
                new_inputs == restored_fields(was.inputs, saved, 0),
                inputs.deep_view() == new_inputs.take(i as int),
            decreases signature.inputs@.len() - i,
        {
            let mut field = signature.inputs[i].duplicate();
            if i < self.fields.len() {
                field.desc = self.fields[i].description.clone();
                field.prefix = Some(self.fields[i].prefix.clone());
            }
            proof {
                assert(field.deep_view() == new_inputs[i as int]);
                assert(new_inputs.take(i + 1) =~= new_inputs.take(i as int).push(
                    new_inputs[i as int],
                ));
            }
            append(&mut inputs, field);
            i = i + 1;
        }
        let mut outputs: Vec<OutField> = Vec::new();
        let mut j: usize = 0;
        proof {
            assert(outputs.deep_view() =~= new_outputs.take(0));
        }
        while j < signature.outputs.len()
            invariant
                i == signature.inputs@.len(),
                j <= signature.outputs@.len(),
                *signature == *old(signature),
                was == signature.deep_view(),
                saved == self.deep_view().fields,
                new_outputs == restored_fields(was.outputs, saved, was.inputs.len() as int),
                outputs.deep_view() == new_outputs.take(j as int),
            decreases signature.outputs@.len() - j,
        {
            let mut field = signature.outputs[j].duplicate();
            if i < self.fields.len() && j < self.fields.len() - i {
                field.desc = self.fields[i + j].description.clone();
                field.prefix = Some(self.fields[i + j].prefix.clone());
            }
            proof {
                assert(field.deep_view() == new_outputs[j as int]);
                assert(new_outputs.take(j + 1) =~= new_outputs.take(j as int).push(
                    new_outputs[j as int],
                ));
            }
            append(&mut outputs, field);
            j = j + 1;
        }
        proof {
            assert(new_inputs.take(i as int) =~= new_inputs);
            assert(new_outputs.take(j as int) =~= new_outputs);
        }
        signature.instructions = self.instructions.clone();
        signature.inputs = inputs;
        signature.outputs = outputs;
    }
}

/// A saved signature restored onto one with the same number of fields saves the same again.
pub proof fn law_a_saved_signature_round_trips(saved: SignatureModel, live: SignatureModel)
    requires
        saved.fields().len() == live.fields().len(),
    ensures
        saved_signature(restored_signature(live, saved_signature(saved))) == saved_signature(
            saved,
        ),
{
    let state = saved_signature(saved);
    let restored = restored_signature(live, state);
    assert(restored.fields().len() == saved.fields().len());
    assert forall|i: int| 0 <= i < state.fields.len() implies saved_field(restored.fields()[i])
        == #[trigger] state.fields[i] by {
        lemma_saved_description_is_said(saved.fields()[i]);
        if i < live.inputs.len() {
            assert(restored.fields()[i] == restored_field(live.inputs[i], state.fields[i]));
        } else {
            let j = i - live.inputs.len();
            assert(restored.fields()[i] == restored_field(live.outputs[j], state.fields[i]));
        }
    }
    assert(saved_signature(restored).fields =~= state.fields);
}

proof fn lemma_saved_description_is_said(field: FieldModel)
    ensures
        saved_field(field).description.len() > 0,
{
    reveal_strlit("${");
}

/// What one predictor saves.
#[derive(Debug)]
pub struct PredictorState {
    /// Always empty, and kept because readers of the file expect the key.
    pub traces: Vec<Value>,
    /// Always empty, and kept because readers of the file expect the key.
    pub train: Vec<Value>,
    /// Each demo by its fields. Which of them are inputs is the signature's to say.
    pub demos: Vec<Vec<(String, Value)>>,
    pub signature: SignatureState,
    /// The model this predictor was pinned to, as the settings that state it.
    pub lm: Option<Vec<(String, String)>>,
}

/// What a [`PredictorState`] holds.
#[verifier::ext_equal]
pub struct PredictorStateModel {
    pub traces: Seq<ValueModel>,
    pub train: Seq<ValueModel>,
    pub demos: Seq<Seq<(Seq<char>, ValueModel)>>,
    pub signature: SignatureStateModel,
    pub lm: Option<Block>,
}

impl DeepView for PredictorState {
    type V = PredictorStateModel;

    open spec fn deep_view(&self) -> PredictorStateModel {
        PredictorStateModel {
            traces: self.traces.deep_view(),
            train: self.train.deep_view(),
            demos: self.demos.deep_view(),
            signature: self.signature.deep_view(),
            lm: self.lm.deep_view(),
        }
    }
}

impl Duplicate for PredictorState {
    fn duplicate(&self) -> (r: Self) {
        PredictorState {
            traces: self.traces.duplicate(),
            train: self.train.duplicate(),
            demos: self.demos.duplicate(),
            signature: self.signature.duplicate(),
            lm: self.lm.duplicate(),
        }
    }
}

/// How a predictor is saved.
pub open spec fn saved_predictor(
    signature: SignatureModel,
    demos: Seq<ExampleModel>,
    lm: Option<Block>,
) -> PredictorStateModel {
    PredictorStateModel {
        traces: Seq::empty(),
        train: Seq::empty(),
        demos: Seq::new(demos.len(), |i: int| demos[i].fields),
        signature: saved_signature(signature),
        lm,
    }
}

impl PredictorState {
    /// What one predictor's signature, demos and pinned model amount to on disk.
    pub fn of(
        signature: &Signature,
        demos: &Vec<Example>,
        lm: &Option<Vec<(String, String)>>,
    ) -> (r: PredictorState)
        ensures
            r.deep_view() == saved_predictor(
                signature.deep_view(),
                demos.deep_view(),
                lm.deep_view(),
            ),
    {
        let traces: Vec<Value> = Vec::new();
        let train: Vec<Value> = Vec::new();
        let mut fields: Vec<Vec<(String, Value)>> = Vec::new();
        let ghost all = Seq::new(demos.deep_view().len(), |i: int| demos.deep_view()[i].fields);
        let mut i: usize = 0;
        proof {
            assert(traces.deep_view() =~= Seq::empty());
            assert(train.deep_view() =~= Seq::empty());
            assert(fields.deep_view() =~= all.take(0));
        }
        while i < demos.len()
            invariant
                i <= demos@.len(),
                all == Seq::new(
                    demos.deep_view().len(),
                    |i: int| demos.deep_view()[i].fields,
                ),
                fields.deep_view() == all.take(i as int),
            decreases demos@.len() - i,
        {
            append(&mut fields, demos[i].fields.duplicate());
            proof {
                assert(all.take(i + 1) =~= all.take(i as int).push(all[i as int]));
            }
            i = i + 1;
        }
        proof {
            assert(all.take(i as int) =~= all);
        }
        PredictorState {
            traces,
            train,
            demos: fields,
            signature: SignatureState::of(signature),
            lm: lm.duplicate(),
        }
    }
}

/// What a module that writes its own source saves.
#[derive(Debug)]
pub struct FlexState {
    pub module_src: Option<String>,
    pub lm: Option<Vec<(String, String)>>,
}

/// What a [`FlexState`] holds.
#[verifier::ext_equal]
pub struct FlexStateModel {
    pub module_src: Option<Seq<char>>,
    pub lm: Option<Block>,
}

impl DeepView for FlexState {
    type V = FlexStateModel;

    open spec fn deep_view(&self) -> FlexStateModel {
        FlexStateModel { module_src: self.module_src.deep_view(), lm: self.lm.deep_view() }
    }
}

impl Duplicate for FlexState {
    fn duplicate(&self) -> (r: Self) {
        FlexState { module_src: self.module_src.duplicate(), lm: self.lm.duplicate() }
    }
}

/// What one submodule of a program saved.
#[derive(Debug)]
pub enum SubmoduleState {
    Predictor(PredictorState),
    Flex(FlexState),
}

/// What a [`SubmoduleState`] holds.
#[verifier::ext_equal]
pub enum SubmoduleModel {
    Predictor(PredictorStateModel),
    Flex(FlexStateModel),
}

impl DeepView for SubmoduleState {
    type V = SubmoduleModel;

    open spec fn deep_view(&self) -> SubmoduleModel {
        match *self {
            SubmoduleState::Predictor(state) => SubmoduleModel::Predictor(state.deep_view()),
            SubmoduleState::Flex(state) => SubmoduleModel::Flex(state.deep_view()),
        }
    }
}

impl Duplicate for SubmoduleState {
    fn duplicate(&self) -> (r: Self) {
        match self {
            SubmoduleState::Predictor(state) => SubmoduleState::Predictor(state.duplicate()),
            SubmoduleState::Flex(state) => SubmoduleState::Flex(state.duplicate()),
        }
    }
}

/// What a reader checks when it opens a saved file.
#[derive(Debug)]
pub struct Metadata {
    pub dependency_versions: Vec<(String, String)>,
}

impl DeepView for Metadata {
    type V = Block;

    open spec fn deep_view(&self) -> Block {
        self.dependency_versions.deep_view()
    }
}

impl Duplicate for Metadata {
    fn duplicate(&self) -> (r: Self) {
        Metadata { dependency_versions: self.dependency_versions.duplicate() }
    }
}

/// The one version a saved file states.
pub open spec fn format_version() -> Block {
    seq![("dspy"@, DSPY_VERSION@)]
}

impl Default for Metadata {
    fn default() -> (r: Self)
        ensures
            r.deep_view() == format_version(),
    {
        let mut dependency_versions: Vec<(String, String)> = Vec::new();
        dependency_versions.push(("dspy".to_owned(), DSPY_VERSION.to_owned()));
        proof {
            assert(dependency_versions.deep_view() =~= format_version());
        }
        Metadata { dependency_versions }
    }
}

/// A whole saved program: each submodule under its own name, in the order of the names, and the
/// metadata beside them.
#[derive(Debug)]
pub struct ProgramState {
    pub submodules: Vec<(String, SubmoduleState)>,
    pub metadata: Metadata,
}

/// What a [`ProgramState`] holds.
#[verifier::ext_equal]
pub struct ProgramStateModel {
    pub submodules: Seq<(Seq<char>, SubmoduleModel)>,
    pub metadata: Block,
}

impl DeepView for ProgramState {
    type V = ProgramStateModel;

    open spec fn deep_view(&self) -> ProgramStateModel {
        ProgramStateModel {
            submodules: self.submodules.deep_view(),
            metadata: self.metadata.deep_view(),
        }
    }
}

impl Duplicate for ProgramState {
    fn duplicate(&self) -> (r: Self) {
        ProgramState {
            submodules: self.submodules.duplicate(),
            metadata: self.metadata.duplicate(),
        }
    }
}

impl ProgramStateModel {
    /// One predictor's state, or nothing where that name is absent or saved something else.
    pub open spec fn get(self, name: Seq<char>) -> Option<PredictorStateModel> {
        match lookup(self.submodules, name) {
            Some(SubmoduleModel::Predictor(state)) => Some(state),
            _ => None,
        }
    }
}

/// Every entry filed under its name, a later one instead of an earlier one of the same name.
pub open spec fn all_filed(entries: Seq<(Seq<char>, SubmoduleModel)>) -> Seq<
    (Seq<char>, SubmoduleModel),
>
    decreases entries.len(),
{
    if entries.len() == 0 {
        Seq::empty()
    } else {
        filed(all_filed(entries.drop_last()), entries.last().0, entries.last().1)
    }
}

impl ProgramState {
    /// The state for these named submodules, in the order of their names, with the metadata a
    /// reader expects.
    pub fn new(submodules: Vec<(String, SubmoduleState)>) -> (r: ProgramState)
        ensures
            r.deep_view() == (ProgramStateModel {
                submodules: all_filed(submodules.deep_view()),
                metadata: format_version(),
            }),
            ascending(r.deep_view().submodules),
    {
        let ghost model = submodules.deep_view();
        let mut entries: Vec<(String, SubmoduleState)> = Vec::new();
        let mut i: usize = 0;
        proof {
            assert(entries.deep_view() =~= all_filed(model.take(0)));
        }
        while i < submodules.len()
            invariant
                i <= submodules@.len(),
                model == submodules.deep_view(),
                entries.deep_view() == all_filed(model.take(i as int)),
                ascending(entries.deep_view()),
            decreases submodules@.len() - i,
        {
            proof {
                assert(model.take(i + 1).drop_last() =~= model.take(i as int));
                assert(model.take(i + 1).last() == model[i as int]);
                law_filing_keeps_the_order(
                    entries.deep_view(),
                    model[i as int].0,
                    model[i as int].1,
                    model[i as int].0,
                );
            }
            file(&mut entries, submodules[i].0.clone(), submodules[i].1.duplicate());
            i = i + 1;
        }
        proof {
            assert(model.take(i as int) =~= model);
        }
        ProgramState { submodules: entries, metadata: Metadata::default() }
    }

    /// One submodule's state, whatever shape it saved in.
    pub fn state(&self, name: &str) -> (r: Option<&SubmoduleState>)
        ensures
            match r {
                Some(state) => lookup(self.deep_view().submodules, name@) == Some(
                    state.deep_view(),
                ),
                None => lookup(self.deep_view().submodules, name@) is None,
            },
    {
        get(&self.submodules, name)
    }

    /// One predictor's state, or nothing where that name is absent or saved something else.
    pub fn get(&self, name: &str) -> (r: Option<&PredictorState>)
        ensures
            match r {
                Some(state) => self.deep_view().get(name@) == Some(state.deep_view()),
                None => self.deep_view().get(name@) is None,
            },
    {
        match get(&self.submodules, name) {
            Some(state) => match state {
                SubmoduleState::Predictor(predictor) => Some(predictor),
                SubmoduleState::Flex(_) => None,
            },
            None => None,
        }
    }
}

/// The submodules the first `n` predictors of a program save.
pub open spec fn saved_submodules(program: Seq<PredictorModel>, n: nat) -> Seq<
    (Seq<char>, SubmoduleModel),
>
    decreases n,
{
    if n == 0 {
        Seq::empty()
    } else {
        let p = program[n - 1];
        filed(
            saved_submodules(program, (n - 1) as nat),
            p.name,
            SubmoduleModel::Predictor(saved_predictor(p.signature, p.demos, p.lm)),
        )
    }
}

/// What a program saves.
pub open spec fn saved_program(program: Seq<PredictorModel>) -> ProgramStateModel {
    ProgramStateModel {
        submodules: saved_submodules(program, program.len()),
        metadata: format_version(),
    }
}

/// Whether a setting decides which host answers.
pub open spec fn redirects(name: Seq<char>) -> bool {
    name == "api_base"@ || name == "base_url"@ || name == "model_list"@
}

/// A saved model block as it may be used: whole where the file is trusted, and otherwise without
/// the settings that redirect it.
pub open spec fn sanitized(block: Block, allow_redirect: bool) -> Block {
    if allow_redirect {
        block
    } else {
        block.filter(|s: (Seq<char>, Seq<char>)| !redirects(s.0))
    }
}

/// A saved demo as a row, its inputs those of the signature.
pub open spec fn restored_demo(
    fields: Seq<(Seq<char>, ValueModel)>,
    inputs: Seq<Seq<char>>,
) -> ExampleModel {
    ExampleModel { fields, input_keys: Some(inputs) }
}

/// A predictor with its saved state written onto it.
pub open spec fn restored_predictor(
    predictor: PredictorModel,
    saved: PredictorStateModel,
    trust: Trust,
) -> PredictorModel {
    let signature = restored_signature(predictor.signature, saved.signature);
    PredictorModel {
        signature,
        demos: Seq::new(
            saved.demos.len(),
            |i: int| restored_demo(saved.demos[i], names_of(signature.inputs)),
        ),
        lm: match saved.lm {
            Some(block) => Some(sanitized(block, trust == Trust::File)),
            None => predictor.lm,
        },
        ..predictor
    }
}

/// The names of a program's predictors that a state has no entry for, in walk order.
pub open spec fn missing_names(program: Seq<PredictorModel>, state: ProgramStateModel) -> Seq<
    Seq<char>,
>
    decreases program.len(),
{
    if program.len() == 0 {
        Seq::empty()
    } else {
        let before = missing_names(program.drop_last(), state);
        if state.get(program.last().name) is Some {
            before
        } else {
            before.push(program.last().name)
        }
    }
}

/// A program with a state written onto it.
pub open spec fn restored_program(
    program: Seq<PredictorModel>,
    state: ProgramStateModel,
    trust: Trust,
) -> Seq<PredictorModel> {
    Seq::new(
        program.len(),
        |p: int| restored_predictor(program[p], state.get(program[p].name)->0, trust),
    )
}

/// A state that does not fit a program: the predictors it has no entry for.
#[derive(Debug)]
pub struct MissingEntries {
    pub names: Vec<String>,
}

impl MissingEntries {
    /// The refusal in words.
    pub open spec fn text(self) -> Seq<char> {
        "the saved state has no entry for ["@ + joined(
            Seq::new(
                self.names.deep_view().len(),
                |i: int| shown_name(self.names.deep_view()[i]),
            ),
            ", "@,
        ) + "]"@
    }

    /// The refusal in words.
    pub fn message(&self) -> (r: String)
        ensures
            r@ == self.text(),
    {
        let mut quoted: Vec<String> = Vec::new();
        let ghost all = Seq::new(
            self.names.deep_view().len(),
            |i: int| shown_name(self.names.deep_view()[i]),
        );
        let mut i: usize = 0;
        proof {
            assert(quoted.deep_view() =~= all.take(0));
        }
        while i < self.names.len()
            invariant
                i <= self.names@.len(),
                all == Seq::new(
                    self.names.deep_view().len(),
                    |i: int| shown_name(self.names.deep_view()[i]),
                ),
                quoted.deep_view() == all.take(i as int),
            decreases self.names@.len() - i,
        {
            append(&mut quoted, show_name(self.names[i].as_str()));
            proof {
                assert(all.take(i + 1) =~= all.take(i as int).push(all[i as int]));
            }
            i = i + 1;
        }
        proof {
            assert(all.take(i as int) =~= all);
        }
        let mut r: String = "the saved state has no entry for [".to_owned();
        r.append(join(&quoted, ", ").as_str());
        r.append("]");
        r
    }
}

/// The model block each predictor of a program would be pinned to.
pub open spec fn pinned_blocks(
    program: Seq<PredictorModel>,
    state: ProgramStateModel,
    trust: Trust,
) -> Seq<Option<Block>> {
    Seq::new(
        program.len(),
        |p: int|
            match state.get(program[p].name) {
                Some(saved) => match saved.lm {
                    Some(block) => Some(sanitized(block, trust == Trust::File)),
                    None => None,
                },
                None => None,
            },
    )
}

/// Whether a state pins this predictor to a model that cannot be built.
pub open spec fn cannot_build(
    program: Seq<PredictorModel>,
    state: ProgramStateModel,
    refusals: Seq<Option<Seq<char>>>,
    p: int,
) -> bool {
    refusals[p] is Some && state.get(program[p].name) is Some && state.get(
        program[p].name,
    )->0.lm is Some
}

/// The first predictor that a state pins to a model which cannot be built.
pub open spec fn first_unbuildable(
    program: Seq<PredictorModel>,
    state: ProgramStateModel,
    refusals: Seq<Option<Seq<char>>>,
) -> Option<int>
    decreases program.len(),
{
    if program.len() == 0 {
        None
    } else {
        let last = program.len() - 1;
        match first_unbuildable(program.drop_last(), state, refusals) {
            Some(at) => Some(at),
            None => if cannot_build(program, state, refusals, last) {
                Some(last)
            } else {
                None
            },
        }
    }
}

/// What comes of loading a state.
#[verifier::ext_equal]
pub enum LoadModel {
    Loaded,
    /// These predictors have no entry.
    Missing { names: Seq<Seq<char>> },
    /// The model that this predictor is pinned to cannot be built, for this reason.
    Unbuildable { predictor: Seq<char>, reason: Seq<char> },
}

/// What comes of loading a state onto a program: a missing entry is found before a model that
/// cannot be built.
pub open spec fn load_outcome(
    program: Seq<PredictorModel>,
    state: ProgramStateModel,
    refusals: Seq<Option<Seq<char>>>,
) -> LoadModel {
    if missing_names(program, state).len() > 0 {
        LoadModel::Missing { names: missing_names(program, state) }
    } else {
        match first_unbuildable(program, state, refusals) {
            Some(at) => LoadModel::Unbuildable {
                predictor: program[at].name,
                reason: refusals[at]->0,
            },
            None => LoadModel::Loaded,
        }
    }
}

/// Why a load was refused.
#[derive(Debug)]
pub enum LoadError {
    Missing { missing: MissingEntries },
    Unbuildable { predictor: String, reason: String },
}

impl LoadError {
    /// The outcome this refusal stands for.
    pub open spec fn model(self) -> LoadModel {
        match self {
            LoadError::Missing { missing } => LoadModel::Missing {
                names: missing.names.deep_view(),
            },
            LoadError::Unbuildable { predictor, reason } => LoadModel::Unbuildable {
                predictor: predictor@,
                reason: reason@,
            },
        }
    }

    /// The refusal in words: the names without an entry, or the builder's own reason.
    pub fn message(&self) -> (r: String)
        ensures
            match *self {
                LoadError::Missing { missing } => r@ == missing.text(),
                LoadError::Unbuildable { reason, .. } => r@ == reason@,
            },
    {
        match self {
            LoadError::Missing { missing } => missing.message(),
            LoadError::Unbuildable { reason, .. } => reason.clone(),
        }
    }
}

proof fn lemma_first_unbuildable(
    program: Seq<PredictorModel>,
    state: ProgramStateModel,
    refusals: Seq<Option<Seq<char>>>,
    at: int,
)
    requires
        0 <= at < program.len(),
        cannot_build(program, state, refusals, at),
        forall|j: int| 0 <= j < at ==> !#[trigger] cannot_build(program, state, refusals, j),
    ensures
        first_unbuildable(program, state, refusals) == Some(at),
    decreases program.len(),
{
    let before = program.drop_last();
    assert forall|j: int| 0 <= j < before.len() implies #[trigger] cannot_build(
        before,
        state,
        refusals,
        j,
    ) == cannot_build(program, state, refusals, j) by {}
    if at < before.len() {
        lemma_first_unbuildable(before, state, refusals, at);
    } else {
        lemma_all_buildable(before, state, refusals);
    }
}

proof fn lemma_all_buildable(
    program: Seq<PredictorModel>,
    state: ProgramStateModel,
    refusals: Seq<Option<Seq<char>>>,
)
    requires
        forall|j: int|
            0 <= j < program.len() ==> !#[trigger] cannot_build(program, state, refusals, j),
    ensures
        first_unbuildable(program, state, refusals) is None,
    decreases program.len(),
{
    if program.len() > 0 {
        let before = program.drop_last();
        assert forall|j: int| 0 <= j < before.len() implies !#[trigger] cannot_build(
            before,
            state,
            refusals,
            j,
        ) by {
            assert(!cannot_build(program, state, refusals, j));
        }
        lemma_all_buildable(before, state, refusals);
        assert(!cannot_build(program, state, refusals, program.len() - 1));
    }
}

/// [`sanitized`], copied out.
fn sanitize(block: &Vec<(String, String)>, allow_redirect: bool) -> (r: Vec<(String, String)>)
    ensures
        r.deep_view() == sanitized(block.deep_view(), allow_redirect),
{
    if allow_redirect {
        return block.duplicate();
    }
    let mut r: Vec<(String, String)> = Vec::new();
    let ghost keep = |s: (Seq<char>, Seq<char>)| !redirects(s.0);
    let ghost all = block.deep_view();
    let mut i: usize = 0;
    proof {
        assert(all.take(0) =~= Seq::empty());
        reveal(Seq::filter);
        assert(r.deep_view() =~= all.take(0).filter(keep));
    }
    while i < block.len()
        invariant
            i <= block@.len(),
            keep == (|s: (Seq<char>, Seq<char>)| !redirects(s.0)),
            all == block.deep_view(),
            r.deep_view() == all.take(i as int).filter(keep),
        decreases block@.len() - i,
    {
        proof {
            assert(all.take(i + 1).drop_last() =~= all.take(i as int));
            reveal(Seq::filter);
        }
        let name = block[i].0.as_str();
        if !(same_text(name, "api_base") || same_text(name, "base_url") || same_text(
            name,
            "model_list",
        )) {
            append(&mut r, block[i].duplicate());
        }
        i = i + 1;
    }
    proof {
        assert(all.take(i as int) =~= all);
    }
    r
}

impl Program {
    /// This program's compiled state: every predictor's instructions, demos and pinned model under
    /// its name.
    pub fn dump_state(&self) -> (r: ProgramState)
        ensures
            r.deep_view() == saved_program(self.deep_view()),
            ascending(r.deep_view().submodules),
    {
        let mut submodules: Vec<(String, SubmoduleState)> = Vec::new();
        let mut i: usize = 0;
        proof {
            assert(submodules.deep_view() =~= Seq::empty());
        }
        while i < self.predictors.len()
            invariant
                i <= self.predictors@.len(),
                submodules.deep_view() == saved_submodules(self.deep_view(), i as nat),
                ascending(submodules.deep_view()),
            decreases self.predictors@.len() - i,
        {
            let predictor = &self.predictors[i];
            let state = PredictorState::of(&predictor.signature, &predictor.demos, &predictor.lm);
            let entry = SubmoduleState::Predictor(state);
            proof {
                assert(self.deep_view()[i as int] == predictor.deep_view());
                law_filing_keeps_the_order(
                    submodules.deep_view(),
                    predictor.name@,
                    entry.deep_view(),
                    predictor.name@,
                );
            }
            file(&mut submodules, predictor.name.clone(), entry);
            i = i + 1;
        }
        ProgramState { submodules, metadata: Metadata::default() }
    }

    /// Restores a compiled state onto this program as an ordinary load does. `refusals` says of
    /// each predictor why the model its block describes cannot be built, where it cannot.
    pub fn load_state(&mut self, state: &ProgramState, refusals: &Vec<Option<String>>) -> (r: Result<
        (),
        LoadError,
    >)
        requires
            refusals@.len() == old(self).deep_view().len(),
        ensures
            r is Ok ==> final(self).deep_view() == restored_program(
                old(self).deep_view(),
                state.deep_view(),
                Trust::Default,
            ),
            r is Err ==> final(self).deep_view() == old(self).deep_view(),
            load_outcome(old(self).deep_view(), state.deep_view(), refusals.deep_view()) == match r {
                Ok(()) => LoadModel::Loaded,
                Err(error) => error.model(),
            },
    {
        self.load_state_with(state, Trust::Default, refusals)
    }

    /// Restores a compiled state from a file the caller vouches for.
    pub fn load_state_trusted(
        &mut self,
        state: &ProgramState,
        refusals: &Vec<Option<String>>,
    ) -> (r: Result<(), LoadError>)
        requires
            refusals@.len() == old(self).deep_view().len(),
        ensures
            r is Ok ==> final(self).deep_view() == restored_program(
                old(self).deep_view(),
                state.deep_view(),
                Trust::File,
            ),
            r is Err ==> final(self).deep_view() == old(self).deep_view(),
            load_outcome(old(self).deep_view(), state.deep_view(), refusals.deep_view()) == match r {
                Ok(()) => LoadModel::Loaded,
                Err(error) => error.model(),
            },
    {
        self.load_state_with(state, Trust::File, refusals)
    }

    /// The model block each predictor would be pinned to by a load, as far as the file is trusted
    /// with it.
    pub fn model_blocks(&self, state: &ProgramState, trust: Trust) -> (r: Vec<
        Option<Vec<(String, String)>>,
    >)
        ensures
            r.deep_view() == pinned_blocks(self.deep_view(), state.deep_view(), trust),
    {
        let ghost all = pinned_blocks(self.deep_view(), state.deep_view(), trust);
        let mut r: Vec<Option<Vec<(String, String)>>> = Vec::new();
        let mut i: usize = 0;
        proof {
            assert(r.deep_view() =~= all.take(0));
        }
        while i < self.predictors.len()
            invariant
                i <= self.predictors@.len(),
                all == pinned_blocks(self.deep_view(), state.deep_view(), trust),
                r.deep_view() == all.take(i as int),
            decreases self.predictors@.len() - i,
        {
            proof {
                assert(self.deep_view()[i as int] == self.predictors@[i as int].deep_view());
            }
            let block = match state.get(self.predictors[i].name.as_str()) {
                Some(saved) => match &saved.lm {
                    Some(block) => Some(sanitize(block, trust.allows_redirect())),
                    None => None,
                },
                None => None,
            };
            proof {
                assert(block.deep_view() == all[i as int]);
                assert(all.take(i + 1) =~= all.take(i as int).push(all[i as int]));
            }
            append(&mut r, block);
            i = i + 1;
        }
        proof {
            assert(all.take(i as int) =~= all);
        }
        r
    }

    /// The first predictor that the state pins to a model which cannot be built.
    fn unbuildable(&self, state: &ProgramState, refusals: &Vec<Option<String>>) -> (r: Option<usize>)
        requires
            refusals@.len() == self.deep_view().len(),
        ensures
            match r {
                Some(at) => at < self.predictors@.len() && refusals@[at as int] is Some
                    && first_unbuildable(
                    self.deep_view(),
                    state.deep_view(),
                    refusals.deep_view(),
                ) == Some(at as int),
                None => first_unbuildable(
                    self.deep_view(),
                    state.deep_view(),
                    refusals.deep_view(),
                ) is None,
            },
    {
        let ghost program = self.deep_view();
        let ghost why = refusals.deep_view();
        let ghost saved_as = state.deep_view();
        let mut i: usize = 0;
        while i < self.predictors.len()
            invariant
                i <= self.predictors@.len(),
                program == self.deep_view(),
                why == refusals.deep_view(),
                saved_as == state.deep_view(),
                refusals@.len() == program.len(),
                forall|j: int| 0 <= j < i ==> !#[trigger] cannot_build(program, saved_as, why, j),
            decreases self.predictors@.len() - i,
        {
            proof {
                assert(program[i as int] == self.predictors@[i as int].deep_view());
                assert(why[i as int] == refusals@[i as int].deep_view());
            }
            let pinned = match state.get(self.predictors[i].name.as_str()) {
                Some(saved) => saved.lm.is_some(),
                None => false,
            };
            if pinned && refusals[i].is_some() {
                proof {
                    assert(cannot_build(program, saved_as, why, i as int));
                    lemma_first_unbuildable(program, saved_as, why, i as int);
                }
                return Some(i);
            }
            proof {
                assert(!cannot_build(program, saved_as, why, i as int));
            }
            i = i + 1;
        }
        proof {
            lemma_all_buildable(program, saved_as, why);
        }
        None
    }

    fn missing(&self, state: &ProgramState) -> (r: Vec<String>)
        ensures
            r.deep_view() == missing_names(self.deep_view(), state.deep_view()),
    {
        let mut r: Vec<String> = Vec::new();
        let ghost all = self.deep_view();
        let mut i: usize = 0;
        proof {
            assert(r.deep_view() =~= missing_names(all.take(0), state.deep_view()));
        }
        while i < self.predictors.len()
            invariant
                i <= self.predictors@.len(),
                all == self.deep_view(),
                r.deep_view() == missing_names(all.take(i as int), state.deep_view()),
            decreases self.predictors@.len() - i,
        {
            proof {
                assert(all.take(i + 1).drop_last() =~= all.take(i as int));
                assert(all[i as int] == self.predictors@[i as int].deep_view());
            }
            if state.get(self.predictors[i].name.as_str()).is_none() {
                append(&mut r, self.predictors[i].name.clone());
            }
            i = i + 1;
        }
        proof {
            assert(all.take(i as int) =~= all);
        }
        r
    }

    /// Restores a compiled state onto this program. Every predictor is looked up, and every model
    /// block known to build, before any predictor is touched: a state that does not fit, or names a
    /// model that cannot be built, leaves the program as it was. `refusals` says of each predictor
    /// why the model its block describes cannot be built, where it cannot.
    pub fn load_state_with(
        &mut self,
        state: &ProgramState,
        trust: Trust,
        refusals: &Vec<Option<String>>,
    ) -> (r: Result<(), LoadError>)
        requires
            refusals@.len() == old(self).deep_view().len(),
        ensures
            r is Ok ==> final(self).deep_view() == restored_program(
                old(self).deep_view(),
                state.deep_view(),
                trust,
            ),
            r is Err ==> final(self).deep_view() == old(self).deep_view(),
            load_outcome(old(self).deep_view(), state.deep_view(), refusals.deep_view()) == match r {
                Ok(()) => LoadModel::Loaded,
                Err(error) => error.model(),
            },
    {
        let names = self.missing(state);
        proof {
            assert(names.deep_view().len() == names@.len());
        }
        if names.len() > 0 {
            return Err(LoadError::Missing { missing: MissingEntries { names } });
        }
        if let Some(at) = self.unbuildable(state, refusals) {
            if let Some(reason) = &refusals[at] {
                proof {
                    assert(refusals.deep_view()[at as int] == Some(reason@));
                    assert(self.deep_view()[at as int] == self.predictors@[at as int].deep_view());
                }
                return Err(
                    LoadError::Unbuildable {
                        predictor: self.predictors[at].name.clone(),
                        reason: reason.clone(),
                    },
                );
            }
        }
        match self.put_back(state, trust) {
            Ok(()) => Ok(()),
            Err(missing) => Err(LoadError::Missing { missing }),
        }
    }

    /// Writes a state onto this program whose model blocks are known to build, such as one that
    /// the program itself dumped. A state that does not fit leaves the program as it was.
    pub fn put_back(&mut self, state: &ProgramState, trust: Trust) -> (r: Result<
        (),
        MissingEntries,
    >)
        ensures
            match r {
                Ok(()) => {
                    &&& missing_names(old(self).deep_view(), state.deep_view()).len() == 0
                    &&& final(self).deep_view() == restored_program(
                        old(self).deep_view(),
                        state.deep_view(),
                        trust,
                    )
                },
                Err(missing) => {
                    &&& missing.names.deep_view() == missing_names(
                        old(self).deep_view(),
                        state.deep_view(),
                    )
                    &&& missing.names.deep_view().len() > 0
                    &&& final(self).deep_view() == old(self).deep_view()
                },
            },
    {
        let names = self.missing(state);
        proof {
            assert(names.deep_view().len() == names@.len());
        }
        if names.len() > 0 {
            return Err(MissingEntries { names });
        }
        let ghost was = self.deep_view();
        let ghost after = restored_program(was, state.deep_view(), trust);
        let mut i: usize = 0;
        while i < self.predictors.len()
            invariant
                i <= self.deep_view().len(),
                was == old(self).deep_view(),
                after == restored_program(was, state.deep_view(), trust),
                missing_names(was, state.deep_view()).len() == 0,
                self.deep_view().len() == was.len(),
                forall|j: int|
                    0 <= j < was.len() ==> self.deep_view()[j] == (if j < i {
                        after[j]
                    } else {
                        was[j]
                    }),
            decreases self.deep_view().len() - i,
        {
            let ghost now = self.deep_view();
            proof {
                lemma_none_missing(was, state.deep_view(), i as int);
                assert(now[i as int] == was[i as int]);
            }
            let mut predictor = self.predictors[i].duplicate();
            match state.get(predictor.name.as_str()) {
                Some(saved) => {
                    saved.signature.restore(&mut predictor.signature);
                    let inputs = predictor.signature.input_names();
                    predictor.demos = demos_from_fields(&saved.demos, &inputs);
                    match &saved.lm {
                        Some(block) => {
                            predictor.lm = Some(sanitize(block, trust.allows_redirect()));
                        },
                        None => {},
                    }
                },
                None => {},
            }
            proof {
                assert(predictor.deep_view() =~= after[i as int]);
            }
            self.predictors[i] = predictor;
            proof {
                assert(self.deep_view() =~= now.update(i as int, after[i as int]));
            }
            i = i + 1;
        }
        proof {
            assert(self.deep_view() =~= after);
        }
        Ok(())
    }
}

/// Where no name is missing, the state has an entry for every predictor.
pub proof fn lemma_none_missing(program: Seq<PredictorModel>, state: ProgramStateModel, i: int)
    requires
        missing_names(program, state).len() == 0,
        0 <= i < program.len(),
    ensures
        state.get(program[i].name) is Some,
    decreases program.len(),
{
    if i < program.len() - 1 {
        lemma_none_missing(program.drop_last(), state, i);
    }
}

/// Saved demos as rows, their inputs those of the signature.
pub fn demos_from_fields(demos: &Vec<Vec<(String, Value)>>, inputs: &Vec<String>) -> (r: Vec<
    Example,
>)
    ensures
        r.deep_view() == Seq::new(
            demos.deep_view().len(),
            |i: int| restored_demo(demos.deep_view()[i], inputs.deep_view()),
        ),
{
    let mut r: Vec<Example> = Vec::new();
    let ghost all = Seq::new(
        demos.deep_view().len(),
        |i: int| restored_demo(demos.deep_view()[i], inputs.deep_view()),
    );
    let mut i: usize = 0;
    proof {
        assert(r.deep_view() =~= all.take(0));
    }
    while i < demos.len()
        invariant
            i <= demos@.len(),
            all == Seq::new(
                demos.deep_view().len(),
                |i: int| restored_demo(demos.deep_view()[i], inputs.deep_view()),
            ),
            r.deep_view() == all.take(i as int),
        decreases demos@.len() - i,
    {
        let row = Example { fields: demos[i].duplicate(), input_keys: Some(inputs.duplicate()) };
        proof {
            assert(row.deep_view() == all[i as int]);
            assert(all.take(i + 1) =~= all.take(i as int).push(all[i as int]));
        }
        append(&mut r, row);
        i = i + 1;
    }
    proof {
        assert(all.take(i as int) =~= all);
    }
    r
}

/// Whether no two predictors of a program share a name.
pub open spec fn names_distinct(program: Seq<PredictorModel>) -> bool {
    forall|i: int, j: int|
        0 <= i < j < program.len() ==> (#[trigger] program[i]).name != (#[trigger] program[j]).name
}

/// Whether a program is shaped like another: the same predictors by name, with as many fields
/// each, and none pinned to a model where the other's is not.
pub open spec fn shaped_like(program: Seq<PredictorModel>, other: Seq<PredictorModel>) -> bool {
    &&& program.len() == other.len()
    &&& forall|i: int|
        0 <= i < program.len() ==> {
            let (a, b) = (#[trigger] program[i], other[i]);
            &&& a.name == b.name
            &&& a.signature.fields().len() == b.signature.fields().len()
            &&& b.lm is None ==> a.lm is None
        }
}

/// A program's submodules are saved in the order of their names, whatever order it holds them in.
pub proof fn law_a_program_is_saved_in_name_order(program: Seq<PredictorModel>)
    ensures
        ascending(saved_program(program).submodules),
{
    lemma_saved_in_order(program, program.len());
}

proof fn lemma_saved_in_order(program: Seq<PredictorModel>, n: nat)
    ensures
        ascending(saved_submodules(program, n)),
    decreases n,
{
    if n > 0 {
        lemma_saved_in_order(program, (n - 1) as nat);
        let last = program[n - 1];
        law_filing_keeps_the_order(
            saved_submodules(program, (n - 1) as nat),
            last.name,
            SubmoduleModel::Predictor(saved_predictor(last.signature, last.demos, last.lm)),
            last.name,
        );
    }
}

proof fn lemma_saved_entry(program: Seq<PredictorModel>, n: nat, i: int)
    requires
        names_distinct(program),
        0 <= i < n <= program.len(),
    ensures
        lookup(saved_submodules(program, n), program[i].name) == Some(
            SubmoduleModel::Predictor(
                saved_predictor(program[i].signature, program[i].demos, program[i].lm),
            ),
        ),
    decreases n,
{
    let last = program[n - 1];
    lemma_saved_in_order(program, (n - 1) as nat);
    law_filing_keeps_the_order(
        saved_submodules(program, (n - 1) as nat),
        last.name,
        SubmoduleModel::Predictor(saved_predictor(last.signature, last.demos, last.lm)),
        program[i].name,
    );
    if i < n - 1 {
        lemma_saved_entry(program, (n - 1) as nat, i);
        assert(program[i].name != program[n - 1].name);
    }
}

proof fn lemma_nothing_missing(program: Seq<PredictorModel>, state: ProgramStateModel)
    requires
        forall|i: int| 0 <= i < program.len() ==> state.get((#[trigger] program[i]).name) is Some,
    ensures
        missing_names(program, state).len() == 0,
    decreases program.len(),
{
    if program.len() > 0 {
        let before = program.drop_last();
        assert forall|i: int| 0 <= i < before.len() implies state.get(
            (#[trigger] before[i]).name,
        ) is Some by {
            assert(before[i] == program[i]);
        }
        lemma_nothing_missing(before, state);
        assert(state.get(program[program.len() - 1].name) is Some);
    }
}

/// What a program saves loads onto every program shaped like it: no entry is missing.
pub proof fn law_a_saved_program_fits_its_shape(
    program: Seq<PredictorModel>,
    fresh: Seq<PredictorModel>,
)
    requires
        names_distinct(program),
        shaped_like(fresh, program),
    ensures
        missing_names(fresh, saved_program(program)).len() == 0,
{
    assert forall|i: int| 0 <= i < fresh.len() implies saved_program(program).get(
        (#[trigger] fresh[i]).name,
    ) is Some by {
        lemma_saved_entry(program, program.len(), i);
    }
    lemma_nothing_missing(fresh, saved_program(program));
}

proof fn lemma_restored_predictor_saves_alike(fresh: PredictorModel, saved: PredictorModel)
    requires
        fresh.signature.fields().len() == saved.signature.fields().len(),
        saved.lm is None ==> fresh.lm is None,
    ensures
        ({
            let state = saved_predictor(saved.signature, saved.demos, saved.lm);
            let restored = restored_predictor(fresh, state, Trust::File);
            &&& restored.name == fresh.name
            &&& saved_predictor(restored.signature, restored.demos, restored.lm) == state
        }),
{
    let state = saved_predictor(saved.signature, saved.demos, saved.lm);
    let restored = restored_predictor(fresh, state, Trust::File);
    law_a_saved_signature_round_trips(saved.signature, fresh.signature);
    let again = saved_predictor(restored.signature, restored.demos, restored.lm);
    assert(again.demos =~= state.demos) by {
        assert(restored.demos.len() == state.demos.len());
        assert forall|i: int| 0 <= i < state.demos.len() implies again.demos[i]
            == state.demos[i] by {
            assert(restored.demos[i].fields == state.demos[i]);
        }
    }
    assert(again =~= state);
}

proof fn lemma_saved_alike(a: Seq<PredictorModel>, b: Seq<PredictorModel>, n: nat)
    requires
        n <= a.len(),
        n <= b.len(),
        forall|i: int|
            0 <= i < n ==> {
                let (x, y) = (#[trigger] a[i], b[i]);
                x.name == y.name && saved_predictor(x.signature, x.demos, x.lm) == saved_predictor(
                    y.signature,
                    y.demos,
                    y.lm,
                )
            },
    ensures
        saved_submodules(a, n) == saved_submodules(b, n),
    decreases n,
{
    if n > 0 {
        lemma_saved_alike(a, b, (n - 1) as nat);
        assert(a[n - 1].name == b[n - 1].name);
    }
}

/// A trusted load gives back what was saved: a program that a state was loaded onto saves as the
/// program the state came from does.
pub proof fn law_loading_gives_back_what_was_saved(
    program: Seq<PredictorModel>,
    fresh: Seq<PredictorModel>,
)
    requires
        names_distinct(program),
        shaped_like(fresh, program),
    ensures
        saved_program(restored_program(fresh, saved_program(program), Trust::File))
            == saved_program(program),
{
    let state = saved_program(program);
    let loaded = restored_program(fresh, state, Trust::File);
    assert forall|i: int| 0 <= i < program.len() implies {
        let (x, y) = (#[trigger] loaded[i], program[i]);
        x.name == y.name && saved_predictor(x.signature, x.demos, x.lm) == saved_predictor(
            y.signature,
            y.demos,
            y.lm,
        )
    } by {
        assert(fresh[i].name == program[i].name);
        lemma_saved_entry(program, program.len(), i);
        lemma_restored_predictor_saves_alike(fresh[i], program[i]);
    }
    lemma_saved_alike(loaded, program, program.len());
}

/// A load gives the program itself back. Each predictor has the instructions it had, its demos, one
/// for one with the same fields, and each field's description and label where they were given.
/// Names, kinds and the fields themselves are the live program's, and a demo's inputs are the live
/// signature's.
pub proof fn law_a_loaded_program_is_the_saved_one(
    program: Seq<PredictorModel>,
    fresh: Seq<PredictorModel>,
    trust: Trust,
    p: int,
)
    requires
        names_distinct(program),
        shaped_like(fresh, program),
        0 <= p < program.len(),
    ensures
        ({
            let loaded = restored_program(fresh, saved_program(program), trust);
            let (was, now) = (program[p], loaded[p]);
            &&& loaded.len() == program.len()
            &&& now.name == was.name
            &&& now.signature.instructions == was.signature.instructions
            &&& now.demos.len() == was.demos.len()
            &&& forall|d: int|
                0 <= d < was.demos.len() ==> (#[trigger] now.demos[d]).fields == was.demos[d].fields
                    && now.demos[d].input_keys == Some(
                    Seq::new(
                        fresh[p].signature.inputs.len(),
                        |k: int| fresh[p].signature.inputs[k].name,
                    ),
                )
            &&& now.signature.inputs.len() == fresh[p].signature.inputs.len()
            &&& now.signature.outputs.len() == fresh[p].signature.outputs.len()
            &&& forall|f: int|
                0 <= f < was.signature.fields().len() ==> {
                    let (before, after) = (
                        was.signature.fields()[f],
                        #[trigger] now.signature.fields()[f],
                    );
                    &&& after.name == fresh[p].signature.fields()[f].name
                    &&& after.kind == fresh[p].signature.fields()[f].kind
                    &&& before.desc.len() > 0 ==> after.desc == before.desc
                    &&& before.desc.len() == 0 ==> after.desc == "${"@ + before.name + "}"@
                    &&& before.prefix is Some ==> after.prefix == before.prefix
                    &&& before.prefix is None ==> after.prefix == Some(
                        prefix_words(before.name) + ":"@,
                    )
                }
            &&& now.config == fresh[p].config
            &&& was.lm is None ==> now.lm == fresh[p].lm
            &&& was.lm is Some && trust == Trust::File ==> now.lm == was.lm
            &&& was.lm is Some && trust == Trust::Default ==> now.lm == Some(
                was.lm->0.filter(
                    |s: (Seq<char>, Seq<char>)|
                        s.0 != "api_base"@ && s.0 != "base_url"@ && s.0 != "model_list"@,
                ),
            )
        }),
{
    let loaded = restored_program(fresh, saved_program(program), trust);
    let (was, live, now) = (program[p], fresh[p], loaded[p]);
    assert(fresh[p].name == program[p].name);
    lemma_saved_entry(program, program.len(), p);
    let state = saved_signature(was.signature);
    assert forall|f: int| 0 <= f < was.signature.fields().len() implies {
        let (before, after) = (was.signature.fields()[f], #[trigger] now.signature.fields()[f]);
        after == restored_field(live.signature.fields()[f], saved_field(before))
    } by {
        assert(state.fields[f] == saved_field(was.signature.fields()[f]));
    }
    let inputs = Seq::new(live.signature.inputs.len(), |k: int| live.signature.inputs[k].name);
    assert(names_of(now.signature.inputs) =~= inputs);
    if was.lm is Some && trust == Trust::Default {
        lemma_sanitized(
            was.lm->0,
            |s: (Seq<char>, Seq<char>)|
                s.0 != "api_base"@ && s.0 != "base_url"@ && s.0 != "model_list"@,
        );
    }
}

proof fn lemma_sanitized(block: Block, keep: spec_fn((Seq<char>, Seq<char>)) -> bool)
    requires
        forall|s: (Seq<char>, Seq<char>)| #[trigger] keep(s) == !redirects(s.0),
    ensures
        sanitized(block, false) == block.filter(keep),
    decreases block.len(),
{
    reveal(Seq::filter);
    if block.len() > 0 {
        lemma_sanitized(block.drop_last(), keep);
        assert(keep(block.last()) == !redirects(block.last().0));
    }
}

/// A saved program holds an entry for every predictor and for nothing else.
pub proof fn law_a_program_saves_its_predictors_only(program: Seq<PredictorModel>, k: int)
    requires
        names_distinct(program),
        0 <= k < saved_program(program).submodules.len(),
    ensures
        saved_program(program).submodules.len() == program.len(),
        exists|p: int|
            0 <= p < program.len() && (#[trigger] program[p]).name == saved_program(
                program,
            ).submodules[k].0,
        saved_program(program).submodules[k].1 is Predictor,
{
    lemma_saved_submodules_count(program, program.len());
}

proof fn lemma_saved_submodules_count(program: Seq<PredictorModel>, n: nat)
    requires
        names_distinct(program),
        n <= program.len(),
    ensures
        saved_submodules(program, n).len() == n,
        forall|k: int|
            0 <= k < n ==> (#[trigger] saved_submodules(program, n)[k]).1 is Predictor && exists|p: int|
                0 <= p < n && (#[trigger] program[p]).name == saved_submodules(program, n)[k].0,
    decreases n,
{
    if n > 0 {
        let m = (n - 1) as nat;
        let held = saved_submodules(program, m);
        let all = saved_submodules(program, n);
        let last = program[n - 1];
        lemma_saved_submodules_count(program, m);
        crate::sorted::lemma_position(held, last.name);
        let at = crate::sorted::position(held, last.name);
        if at < held.len() && held[at].0 == last.name {
            let p = choose|p: int| 0 <= p < m && (#[trigger] program[p]).name == held[at].0;
            assert(program[p].name != program[n - 1].name);
        }
        assert forall|k: int| 0 <= k < n implies (#[trigger] all[k]).1 is Predictor && exists|p: int|
            0 <= p < n && (#[trigger] program[p]).name == all[k].0 by {
            if k == at {
                assert(program[n - 1].name == all[k].0);
            } else {
                let j = if k < at {
                    k
                } else {
                    k - 1
                };
                assert(all[k] == held[j]);
                let p = choose|p: int| 0 <= p < m && (#[trigger] program[p]).name == held[j].0;
                assert(program[p].name == all[k].0);
            }
        }
    }
}

/// A load is refused for missing entries exactly where a predictor has none, and names every such
/// predictor and no other.
pub proof fn law_a_load_names_what_is_missing(
    program: Seq<PredictorModel>,
    state: ProgramStateModel,
    refusals: Seq<Option<Seq<char>>>,
    name: Seq<char>,
)
    ensures
        missing_names(program, state).contains(name) <==> (exists|p: int|
            0 <= p < program.len() && (#[trigger] program[p]).name == name) && state.get(
            name,
        ) is None,
        load_outcome(program, state, refusals) is Missing <==> exists|p: int|
            0 <= p < program.len() && state.get((#[trigger] program[p]).name) is None,
        load_outcome(program, state, refusals) is Missing ==> load_outcome(
            program,
            state,
            refusals,
        )->names == missing_names(program, state),
{
    lemma_missing_names(program, state, name);
    let missing = missing_names(program, state);
    if missing.len() > 0 {
        lemma_missing_names(program, state, missing[0]);
        assert(missing.contains(missing[0]));
        let p = choose|p: int| 0 <= p < program.len() && (#[trigger] program[p]).name == missing[0];
        assert(state.get(program[p].name) is None);
    }
    if exists|p: int| 0 <= p < program.len() && state.get((#[trigger] program[p]).name) is None {
        let p = choose|p: int|
            0 <= p < program.len() && state.get((#[trigger] program[p]).name) is None;
        lemma_missing_names(program, state, program[p].name);
        assert(missing.contains(program[p].name));
    }
}

proof fn lemma_missing_names(
    program: Seq<PredictorModel>,
    state: ProgramStateModel,
    name: Seq<char>,
)
    ensures
        missing_names(program, state).contains(name) <==> (exists|p: int|
            0 <= p < program.len() && (#[trigger] program[p]).name == name) && state.get(
            name,
        ) is None,
    decreases program.len(),
{
    if program.len() > 0 {
        let before = program.drop_last();
        let held = missing_names(before, state);
        let all = missing_names(program, state);
        lemma_missing_names(before, state, name);
        if exists|p: int| 0 <= p < before.len() && (#[trigger] before[p]).name == name {
            let p = choose|p: int| 0 <= p < before.len() && (#[trigger] before[p]).name == name;
            assert(program[p].name == name);
        }
        if program.last().name == name {
            assert(program[program.len() - 1].name == name);
        } else if exists|p: int| 0 <= p < program.len() && (#[trigger] program[p]).name == name {
            let p = choose|p: int| 0 <= p < program.len() && (#[trigger] program[p]).name == name;
            assert(before[p].name == name);
        }
        if held.contains(name) {
            let k = choose|k: int| 0 <= k < held.len() && held[k] == name;
            assert(all[k] == name);
        }
        if all.len() > held.len() {
            assert(all[all.len() - 1] == program.last().name);
        }
        if all.contains(name) {
            let k = choose|k: int| 0 <= k < all.len() && all[k] == name;
            if k < held.len() {
                assert(held[k] == name);
            }
        }
    }
}

/// Where every entry is there, a load is refused exactly where some predictor's saved model cannot
/// be built, and the refusal is that of the first such predictor.
pub proof fn law_a_load_reports_the_first_model_that_cannot_be_built(
    program: Seq<PredictorModel>,
    state: ProgramStateModel,
    refusals: Seq<Option<Seq<char>>>,
    p: int,
)
    requires
        0 <= p < program.len(),
        missing_names(program, state).len() == 0,
        refusals[p] is Some,
        state.get(program[p].name)->0.lm is Some,
        forall|q: int|
            0 <= q < p ==> refusals[q] is None || state.get(
                (#[trigger] program[q]).name,
            )->0.lm is None,
    ensures
        load_outcome(program, state, refusals) == (LoadModel::Unbuildable {
            predictor: program[p].name,
            reason: refusals[p]->0,
        }),
{
    lemma_none_missing(program, state, p);
    lemma_this_is_the_first_unbuildable(program, state, refusals, p);
}

proof fn lemma_this_is_the_first_unbuildable(
    program: Seq<PredictorModel>,
    state: ProgramStateModel,
    refusals: Seq<Option<Seq<char>>>,
    p: int,
)
    requires
        0 <= p < program.len(),
        cannot_build(program, state, refusals, p),
        forall|q: int|
            0 <= q < p ==> refusals[q] is None || state.get(
                (#[trigger] program[q]).name,
            )->0.lm is None,
    ensures
        first_unbuildable(program, state, refusals) == Some(p),
    decreases program.len(),
{
    let before = program.drop_last();
    if p < before.len() {
        assert(before[p] == program[p]);
        assert forall|q: int| 0 <= q < p implies refusals[q] is None || state.get(
            (#[trigger] before[q]).name,
        )->0.lm is None by {
            assert(before[q] == program[q]);
        }
        lemma_this_is_the_first_unbuildable(before, state, refusals, p);
    } else {
        lemma_none_unbuildable(before, state, refusals, program);
    }
}

proof fn lemma_none_unbuildable(
    part: Seq<PredictorModel>,
    state: ProgramStateModel,
    refusals: Seq<Option<Seq<char>>>,
    program: Seq<PredictorModel>,
)
    requires
        part.len() <= program.len(),
        forall|q: int| 0 <= q < part.len() ==> #[trigger] part[q] == program[q],
        forall|q: int|
            0 <= q < part.len() ==> refusals[q] is None || state.get(
                (#[trigger] program[q]).name,
            )->0.lm is None,
    ensures
        first_unbuildable(part, state, refusals) is None,
    decreases part.len(),
{
    if part.len() > 0 {
        let before = part.drop_last();
        assert forall|q: int| 0 <= q < before.len() implies #[trigger] before[q] == program[q] by {
            assert(before[q] == part[q]);
        }
        lemma_none_unbuildable(before, state, refusals, program);
        let last = part.len() - 1;
        assert(part[last] == program[last]);
    }
}

/// Without trust a load differs in one thing only: the settings that decide which host answers are
/// left out of a pinned model's block, and everything else is loaded alike.
pub proof fn law_an_untrusted_load_drops_only_redirects(
    fresh: PredictorModel,
    saved: PredictorStateModel,
)
    ensures
        ({
            let trusted = restored_predictor(fresh, saved, Trust::File);
            let careful = restored_predictor(fresh, saved, Trust::Default);
            &&& careful == PredictorModel { lm: careful.lm, ..trusted }
            &&& saved.lm is None ==> careful.lm == fresh.lm
            &&& saved.lm matches Some(block) ==> careful.lm == Some(sanitized(block, false))
                && trusted.lm == Some(block)
        }),
{
}

/// The model a predictor is to be pinned to is the one its own state saves, every setting of it where
/// the file is trusted, and without the settings that send calls elsewhere where it is not.
pub proof fn law_each_predictor_is_pinned_to_its_own_model(
    program: Seq<PredictorModel>,
    state: ProgramStateModel,
    trust: Trust,
    p: int,
)
    requires
        0 <= p < program.len(),
    ensures
        ({
            let blocks = pinned_blocks(program, state, trust);
            let saved = state.get(program[p].name);
            &&& blocks.len() == program.len()
            &&& saved is None || saved->0.lm is None ==> blocks[p] is None
            &&& saved is Some && saved->0.lm is Some ==> {
                &&& blocks[p] is Some
                &&& trust == Trust::File ==> blocks[p] == saved->0.lm
                &&& blocks[p] == restored_predictor(program[p], saved->0, trust).lm
            }
        }),
{
}

/// A setting is kept unless it sends calls elsewhere, and settings keep their order.
pub proof fn law_only_redirecting_settings_are_dropped(
    block: Block,
    name: Seq<char>,
    value: Seq<char>,
)
    ensures
        sanitized(block, true) == block,
        sanitized(Seq::empty(), false).len() == 0,
        sanitized(block.push((name, value)), false) == if name == "api_base"@ || name
            == "base_url"@ || name == "model_list"@ {
            sanitized(block, false)
        } else {
            sanitized(block, false).push((name, value))
        },
{
    reveal(Seq::filter);
    assert(block.push((name, value)).drop_last() =~= block);
}

/// A state keeps every submodule it is made of: under each name the last one given, and nothing under
/// any other name.
pub proof fn law_a_state_keeps_the_last_of_each_name(
    entries: Seq<(Seq<char>, SubmoduleModel)>,
    name: Seq<char>,
    state: SubmoduleModel,
    other: Seq<char>,
)
    ensures
        all_filed(Seq::empty()).len() == 0,
        lookup(all_filed(entries.push((name, state))), name) == Some(state),
        other != name ==> lookup(all_filed(entries.push((name, state))), other) == lookup(
            all_filed(entries),
            other,
        ),
        ascending(all_filed(entries)),
{
    lemma_all_filed_ascends(entries);
    assert(entries.push((name, state)).drop_last() =~= entries);
    law_filing_keeps_the_order(all_filed(entries), name, state, other);
}

proof fn lemma_all_filed_ascends(entries: Seq<(Seq<char>, SubmoduleModel)>)
    ensures
        ascending(all_filed(entries)),
    decreases entries.len(),
{
    if entries.len() > 0 {
        let before = entries.drop_last();
        lemma_all_filed_ascends(before);
        law_filing_keeps_the_order(
            all_filed(before),
            entries.last().0,
            entries.last().1,
            entries.last().0,
        );
    }
}

} // verus!
