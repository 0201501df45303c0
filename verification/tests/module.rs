//! Saved programs, traces and the small pieces a program is built from.

use std::marker::PhantomData;

use dsrust::double::Double;
use dsrust::example::{Example, Value};
use dsrust::macro_support::{DescribeFallback, DescribeViaType, Type, TypeDescription, TypeProbe};
use dsrust::module::ambient::{listening, record, TraceContext};
use dsrust::module::state::{
    demos_from_fields, DSPY_VERSION, FieldState, FlexState, LoadError, Metadata, PredictorState, ProgramState, SignatureState, SubmoduleState,
};
use dsrust::module::trace::{relabel, FailedPrediction, StepOutputs, TraceStep};
use dsrust::module::trust::Trust;
use dsrust::module::typed::Typed;
use dsrust::program::{NamedPredictor, Program, Sampling};
use dsrust::signature::{infer_prefix, input, output, InField, OutField, Signature};

fn signature() -> Signature {
    Signature {
        instructions:
            "Given the fields `plain_question`, `with_desc`, produce the fields `the_answer`."
                .to_string(),
        inputs: vec![
            InField { name: "plain_question".to_string(), ..Default::default() },
            InField {
                name: "with_desc".to_string(),
                desc: "a described one".to_string(),
                ..Default::default()
            },
        ],
        outputs: vec![OutField {
            name: "the_answer".to_string(),
            desc: "what came out".to_string(),
            ..Default::default()
        }],
    }
}

fn shown(state: &SignatureState) -> Vec<(&str, &str)> {
    state.fields.iter().map(|field| (field.prefix.as_str(), field.description.as_str())).collect()
}

/// One predictor that repeats what it is asked.
fn echo() -> Program {
    Program {
        predictors: vec![NamedPredictor {
            name: "self".to_string(),
            signature: Signature {
                instructions: "Echo the request.".to_string(),
                inputs: vec![input("request", "")],
                outputs: vec![output("answer", "")],
            },
            demos: Vec::new(),
            config: Sampling::default(),
            hint: None,
            lm: None,
        }],
    }
}

fn turn(request: &str, answer: &str) -> Example {
    Example::new().with("request", Value::text(request)).with("answer", Value::text(answer))
}

fn text_of<'a>(example: &'a Example, name: &str) -> Option<&'a str> {
    example.get(name).and_then(|value| value.as_str())
}

#[test]
fn a_signature_dumps_the_way_dspy_dumps_it() {
    let state = SignatureState::of(&signature());
    assert_eq!(
        shown(&state),
        vec![
            ("Plain Question:", "${plain_question}"),
            ("With Desc:", "a described one"),
            ("The Answer:", "what came out"),
        ]
    );
}

#[test]
fn a_saved_signature_restores_onto_the_one_it_came_from() {
    let mut edited = signature();
    edited.instructions = "Answer with GOOD precision.".to_string();
    edited.inputs[0].desc = "the question, rewritten".to_string();
    let saved = SignatureState::of(&edited);

    let mut restored = signature();
    saved.restore(&mut restored);
    assert_eq!(restored.instructions, "Answer with GOOD precision.");
    assert_eq!(restored.inputs[0].desc, "the question, rewritten");
    assert_eq!(restored.inputs[0].prefix.as_deref(), Some("Plain Question:"));
    let again = SignatureState::of(&restored);
    assert_eq!(again.instructions, saved.instructions);
    assert_eq!(shown(&again), shown(&saved));
}

#[test]
fn the_metadata_names_the_release_a_loader_looks_up() {
    let written = Metadata::default();
    assert_eq!(
        written.dependency_versions,
        vec![("dspy".to_string(), DSPY_VERSION.to_string())]
    );
}

#[test]
fn a_program_writes_its_predictors_beside_the_metadata() {
    let state = ProgramState::new(vec![(
        "predict".to_string(),
        SubmoduleState::Predictor(PredictorState::of(&signature(), &Vec::new(), &None)),
    )]);
    let predict = state.get("predict").expect("the predictor is at the top level");
    assert_eq!(predict.signature.instructions, signature().instructions);
    assert!(predict.traces.is_empty());
    assert!(predict.train.is_empty());
    assert!(predict.lm.is_none());
    assert_eq!(state.metadata.dependency_versions[0].0, "dspy");
    assert_eq!(state.metadata.dependency_versions[0].1, DSPY_VERSION);
    assert!(state.get("metadata").is_none(), "the metadata is no submodule");
}

#[test]
fn a_state_that_does_not_fit_is_refused_and_changes_nothing() {
    let mut fresh = echo();
    let refused = fresh
        .load_state(&ProgramState::new(Vec::new()), &vec![None])
        .expect_err("a state naming no predictor at all does not fit");
    assert!(refused.message().contains("has no entry for"), "got: {}", refused.message());
    assert_eq!(fresh.predictors[0].signature.instructions, "Echo the request.");
}

#[test]
fn an_optimizer_can_write_demos_back_through_the_walk() {
    let mut module = echo();
    for predictor in module.predictors.iter_mut() {
        predictor.demos.push(turn("a", "a"));
        predictor.signature.instructions = "Echo it exactly.".to_string();
    }
    assert_eq!(module.predictors[0].demos.len(), 1);
    assert_eq!(module.predictors[0].signature.instructions, "Echo it exactly.");

    module.set_demos(0, Vec::new());
    module.set_instruction(0, "Echo it once.");
    assert!(module.predictors[0].demos.is_empty());
    assert_eq!(module.predictors[0].signature.instructions, "Echo it once.");
    assert_eq!(module.len(), 1);
}

#[test]
fn a_compiled_program_reloads_its_state() {
    let mut trained = echo();
    trained.set_instruction(0, "Answer in one word.");
    trained.set_demos(0, vec![turn("hi", "hello").with_inputs(vec!["request".to_string()])]);
    let state = trained.dump_state();

    let mut fresh = echo();
    fresh.load_state(&state, &vec![None]).expect("loads");
    let loaded = &fresh.predictors[0];
    assert_eq!(loaded.signature.instructions, "Answer in one word.");
    assert_eq!(loaded.demos.len(), 1);
    assert_eq!(text_of(&loaded.demos[0], "answer"), Some("hello"));
    assert!(loaded.demos[0].is_input("request"));
    assert!(!loaded.demos[0].is_input("answer"));
}

#[test]
fn an_untrusted_load_drops_the_keys_that_redirect_a_model() {
    let mut trained = echo();
    trained.predictors[0].lm = Some(vec![
        ("api_base".to_string(), "\"http://elsewhere\"".to_string()),
        ("model".to_string(), "\"gpt-4o\"".to_string()),
    ]);
    let state = trained.dump_state();

    let mut fresh = echo();
    fresh.load_state(&state, &vec![None]).expect("loads");
    assert_eq!(
        fresh.predictors[0].lm,
        Some(vec![("model".to_string(), "\"gpt-4o\"".to_string())])
    );

    let mut trusting = echo();
    trusting.load_state_trusted(&state, &vec![None]).expect("loads");
    assert_eq!(trusting.predictors[0].lm, trained.predictors[0].lm);

    assert!(Trust::File.allows_redirect());
    assert!(!Trust::Default.allows_redirect());
}

#[test]
fn a_model_that_cannot_be_built_fails_the_load_and_changes_nothing() {
    let mut trained = echo();
    trained.set_instruction(0, "Answer in one word.");
    trained.predictors[0].lm = Some(vec![
        ("model".to_string(), "\"custom\"".to_string()),
        ("api_base".to_string(), "\"http://elsewhere\"".to_string()),
    ]);
    let state = trained.dump_state();

    let mut fresh = echo();
    assert_eq!(
        fresh.model_blocks(&state, Trust::Default),
        [Some(vec![("model".to_string(), "\"custom\"".to_string())])],
        "what a builder is handed"
    );
    let refusals = vec![Some("no such class".to_string())];
    for trust in [Trust::Default, Trust::File] {
        let refused = fresh.load_state_with(&state, trust, &refusals).expect_err("cannot be built");
        assert_eq!(refused.message(), "no such class");
        assert!(matches!(&refused, LoadError::Unbuildable { predictor, .. } if predictor == "self"));
    }
    assert_eq!(fresh.predictors[0].signature.instructions, "Echo the request.");
    assert!(fresh.predictors[0].lm.is_none());

    let unpinned = echo().dump_state();
    fresh.load_state(&unpinned, &refusals).expect("nothing is built where nothing is pinned");
}

#[test]
fn a_program_is_saved_in_the_order_of_its_names() {
    let mut program = echo();
    let mut second = echo();
    program.predictors[0].name = "b".to_string();
    second.predictors[0].name = "a".to_string();
    program.predictors.append(&mut second.predictors);
    let state = program.dump_state();
    let names: Vec<&str> = state.submodules.iter().map(|(name, _)| name.as_str()).collect();
    assert_eq!(names, ["a", "b"]);
    let entry = |src: &str| {
        SubmoduleState::Flex(FlexState { module_src: Some(src.to_string()), lm: None })
    };
    let state = ProgramState::new(vec![
        ("z".to_string(), entry("one")),
        ("m".to_string(), entry("two")),
        ("z".to_string(), entry("three")),
    ]);
    let names: Vec<&str> = state.submodules.iter().map(|(name, _)| name.as_str()).collect();
    assert_eq!(names, ["m", "z"]);
    assert!(matches!(state.state("z"), Some(SubmoduleState::Flex(flex))
        if flex.module_src.as_deref() == Some("three")), "a later entry stands instead");
}

#[test]
fn a_flex_entry_is_not_a_predictor() {
    let state = ProgramState::new(vec![(
        "tool".to_string(),
        SubmoduleState::Flex(FlexState { module_src: Some("fn run".to_string()), lm: None }),
    )]);
    assert!(state.get("tool").is_none());
    assert!(state.state("tool").is_some());
    assert!(state.state("other").is_none());
}

#[test]
fn a_saved_demo_is_split_by_the_signatures_inputs() {
    let saved = vec![vec![
        ("request".to_string(), Value::text("hi")),
        ("answer".to_string(), Value::text("hello")),
    ]];
    let demos = demos_from_fields(&saved, &vec!["request".to_string()]);
    assert_eq!(demos.len(), 1);
    assert!(demos[0].is_input("request"));
    assert!(!demos[0].is_input("answer"));
    let asked = demos[0].inputs().expect("the split was declared");
    assert!(asked.has("request"));
    assert!(!asked.has("answer"));
}

#[test]
fn a_field_state_states_a_label_and_a_description() {
    let plain = FieldState::of("top_k", "", &None);
    assert_eq!(plain.prefix, "Top K:");
    assert_eq!(plain.description, "${top_k}");
    let spoken = FieldState::of("top_k", "how many", &Some("K:".to_string()));
    assert_eq!(spoken.prefix, "K:");
    assert_eq!(spoken.description, "how many");
}

#[test]
fn a_label_is_read_from_a_name() {
    assert_eq!(infer_prefix("question"), "Question");
    assert_eq!(infer_prefix("some_attribute_name"), "Some Attribute Name");
    assert_eq!(infer_prefix(""), "");
}

struct Code;

impl Type for Code {
    fn description() -> Option<TypeDescription> {
        Some(TypeDescription {
            name: "Code".to_string(),
            text: "Code in some language.".to_string(),
            replaces_schema: true,
        })
    }
}

struct Image;

impl Type for Image {
    fn description() -> Option<TypeDescription> {
        None
    }
}

struct Plain;

#[test]
fn the_probe_finds_a_type_description_and_falls_back_otherwise() {
    let code = TypeProbe::<Code>(PhantomData).field_descriptions();
    assert_eq!(code.len(), 1);
    assert_eq!(code[0].name, "Code");
    assert!(code[0].replaces_schema);

    assert!(TypeProbe::<Image>(PhantomData).field_descriptions().is_empty());
    assert!(TypeProbe::<Plain>(PhantomData).field_descriptions().is_empty());
}

fn step(predictor: &str) -> TraceStep {
    TraceStep {
        predictor: predictor.to_string(),
        inputs: Example::new(),
        outputs: StepOutputs::Answered(Example::new()),
        signature: signature(),
    }
}

#[test]
fn a_call_outside_any_run_is_not_recorded() {
    let mut outside: Option<TraceContext> = None;
    assert!(!listening(&outside));
    record(&mut outside, 7, step("asked"));
    assert!(outside.is_none());

    let mut run = Some(TraceContext::new(vec![(7, "named".to_string())]));
    assert!(listening(&run));
    record(&mut run, 7, step("asked"));
    record(&mut run, 8, step("asked"));
    let steps = run.expect("the run goes on").steps;
    assert_eq!(steps.len(), 2);
    assert_eq!(steps[0].predictor, "named");
    assert_eq!(steps[1].predictor, "asked");
}

#[test]
fn relabelling_starts_where_it_is_told() {
    let mut trace = vec![step("a"), step("b"), step("c")];
    relabel(&mut trace, 1, "self");
    let names: Vec<&str> = trace.iter().map(|step| step.predictor.as_str()).collect();
    assert_eq!(names, ["a", "self", "self"]);
}

#[test]
fn a_failure_without_a_reward_scores_the_constant() {
    let constant = Double::from_bits((-1.0f64).to_bits());
    let silent = FailedPrediction { completion_text: "???".to_string(), format_reward: None };
    assert_eq!(silent.score(constant).bits, constant.bits);
    let outputs = StepOutputs::Unparsed(silent);
    assert!(outputs.answered().is_none());
    assert_eq!(outputs.failure().expect("a failure").completion_text, "???");
}

#[test]
fn a_typed_module_hands_back_what_it_holds() {
    let typed: Typed<Code, Vec<u8>> = Typed::new(vec![1]);
    let typed = typed.map(|held| {
        let mut held = held;
        held.push(2);
        held
    });
    assert_eq!(typed.into_module(), vec![1, 2]);
}

#[test]
fn every_predictor_is_asked_the_same_way() {
    let mut module = echo();
    module.set_config(Sampling::rollout(3));
    assert_eq!(module.predictors[0].config.rollout_id, Some(3));
    assert_eq!(
        module.predictors[0].config.temperature.map(|heat| heat.bits),
        Some(1.0f64.to_bits())
    );
}
