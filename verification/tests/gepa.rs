//! Reflection: what a run leaves behind, what a model is shown of it, and what is bound back.

use dsrust::double::Double;
use dsrust::example::{Example, Prediction, Value};
use dsrust::module::trace::{FailedPrediction, StepOutputs, TraceStep};
use dsrust::optimize::gepa::binding::{
    bind_sources, code_components, merged_texts, reflected_components, seed_candidate,
    set_instructions, usable_datasets,
};
use dsrust::optimize::gepa::evaluating::{answered, did_not_parse, gather, Capture, FieldMismatch};
use dsrust::optimize::gepa::metric::{Feedback, MetricContext};
use dsrust::optimize::gepa::multimodal::patterns::summary;
use dsrust::optimize::gepa::multimodal::rendering::{formatted, render, Marks};
use dsrust::optimize::gepa::multimodal::MultiModalInstructionProposer;
use dsrust::optimize::gepa::reflecting::{
    code_reflective_records, context_block, reflective_dataset, reflective_draws,
    reflective_selection, rendered_inputs, Captured, Choice, Words,
};
use dsrust::optimize::gepa::reflective::{
    print, rendered_map, Reflective, ReflectiveDataset, ReflectiveSample,
};
use dsrust::optimize::gepa::reported::Decision;
use dsrust::optimize::gepa::GEPA;
use dsrust::program::{NamedFlex, NamedPredictor, Program, Sampling};
use dsrust::signature::{input, output, InField, Signature};

fn double(value: f64) -> Double {
    Double::from_bits(value.to_bits())
}

fn qa(instructions: &str) -> Signature {
    Signature {
        instructions: instructions.to_string(),
        inputs: vec![input("question", "")],
        outputs: vec![output("answer", "")],
    }
}

fn field(name: &str, value: &str) -> Example {
    Example::new().with(name, Value::text(value))
}

fn predictor(name: &str, instructions: &str) -> NamedPredictor {
    NamedPredictor {
        name: name.to_string(),
        signature: qa(instructions),
        demos: Vec::new(),
        config: Sampling::default(),
        hint: None,
        lm: None,
    }
}

fn step(predictor: &str, question: &str, answer: &str, signature: Signature) -> TraceStep {
    TraceStep {
        predictor: predictor.to_string(),
        inputs: field("question", question),
        outputs: StepOutputs::Answered(field("answer", answer)),
        signature,
    }
}

fn captured(trace: Vec<TraceStep>) -> Captured {
    Captured {
        example: field("question", "capital of France?"),
        prediction: Prediction::new(field("answer", "Paris"), "raw"),
        trace,
        scored: Feedback::score_only(double(1.0)),
        unparsed: None,
    }
}

fn said(feedback: &str) -> Words {
    Words { feedback: feedback.to_string(), unparsed: String::new(), messages: Vec::new() }
}

fn text(value: &str) -> Reflective {
    Reflective::Text(value.to_string())
}

fn named(entries: Vec<(&str, Reflective)>) -> Reflective {
    Reflective::Named(entries.into_iter().map(|(name, value)| (name.to_string(), value)).collect())
}

fn sample(entries: Vec<(&str, Reflective)>) -> ReflectiveSample {
    entries.into_iter().map(|(name, value)| (name.to_string(), value)).collect()
}

fn section<'a>(sample: &'a ReflectiveSample, name: &str) -> &'a Reflective {
    &sample.iter().find(|(key, _)| key == name).expect("the section is there").1
}

fn entries(value: &Reflective) -> Vec<(&str, &str)> {
    match value {
        Reflective::Named(parts) => parts
            .iter()
            .map(|(name, part)| match part {
                Reflective::Text(text) => (name.as_str(), text.as_str()),
                _ => panic!("{name} is no text"),
            })
            .collect(),
        _ => panic!("no named parts"),
    }
}

fn words_of(value: &Reflective) -> &str {
    match value {
        Reflective::Text(text) => text.as_str(),
        _ => panic!("no text"),
    }
}

#[test]
fn feedback_text_is_the_callers_or_dspys_score_sentence() {
    let scored = Feedback { score: double(1.0), feedback: None };
    assert_eq!(scored.text("1.0"), "This trajectory got a score of 1.0.");
    let spoken = Feedback { score: double(0.25), feedback: Some("wrong city".to_string()) };
    assert_eq!(spoken.text("0.25"), "wrong city");
    assert_eq!(Feedback::new(double(1.0), "right").feedback.as_deref(), Some("right"));
}

#[test]
fn the_reflective_dataset_carries_the_captured_trace() {
    let runs = vec![captured(vec![step("self", "capital of France?", "Paris", qa("Answer."))])];
    let signature = qa("Answer.");
    let needed = reflective_draws(&runs, &signature, false);
    assert_eq!(needed, [1]);
    let selected = reflective_selection(&runs, &signature, false, &vec![0]);
    assert_eq!(selected, [(0, 0)]);
    let dataset = reflective_dataset(&runs, &selected, &signature, &vec![said("right city")]);
    assert_eq!(dataset.len(), 1, "one captured example touched `self`");
    assert_eq!(entries(section(&dataset[0], "Inputs")), [("question", "capital of France?")]);
    assert_eq!(entries(section(&dataset[0], "Generated Outputs")), [("answer", "Paris")]);
    assert_eq!(words_of(section(&dataset[0], "Feedback")), "right city");

    let other = qa("Something else.");
    assert!(reflective_draws(&runs, &other, false).is_empty());
    assert!(
        reflective_selection(&runs, &other, false, &Vec::new()).is_empty(),
        "a signature nothing traced gets no records"
    );
}

#[test]
fn a_history_input_is_hoisted_into_context() {
    let mut signature = qa("Answer.");
    signature.inputs.push(InField {
        name: "history".to_string(),
        kind: "History".to_string(),
        ..Default::default()
    });
    let inputs = field("question", "and Spain?").with(
        "history",
        Value::Other {
            json: "{\"messages\":[{\"question\":\"France?\"}]}".to_string(),
            repr: "{'messages': [{'question': 'France?'}]}".to_string(),
        },
    );
    let messages = vec!["{'question': 'France?'}".to_string()];
    assert_eq!(context_block(&messages), "```json\n  0: {'question': 'France?'}\n```");
    let shown = rendered_inputs(&inputs, &signature, &messages);
    assert_eq!(
        entries(&shown),
        [
            ("Context", "```json\n  0: {'question': 'France?'}\n```"),
            ("question", "and Spain?"),
        ]
    );
}

#[test]
fn predictors_sharing_a_signature_pool_their_instances() {
    let signature = qa("Answer.");
    let runs = vec![captured(vec![
        step("alpha", "start", "middle", qa("Answer.")),
        step("beta", "middle", "end", qa("Answer.")),
    ])];
    assert_eq!(reflective_draws(&runs, &signature, false), [2]);
    assert_eq!(reflective_selection(&runs, &signature, false, &vec![1]), [(0, 1)]);
    assert_eq!(reflective_selection(&runs, &signature, false, &vec![0]), [(0, 0)]);
}

#[test]
fn reflects_on_the_instance_dspy_draws() {
    let signature = qa("Answer.");
    let runs = vec![
        captured(vec![
            step("step", "start", "middle", qa("Answer.")),
            step("step", "middle", "end", qa("Answer.")),
        ]),
        captured(vec![step("step", "only", "once", qa("Answer."))]),
    ];
    assert_eq!(reflective_draws(&runs, &signature, false), [2, 1], "one instance is drawn too");
    for (draws, question) in [(vec![1, 0], "middle"), (vec![0, 0], "start")] {
        let selected = reflective_selection(&runs, &signature, false, &draws);
        let words = vec![said("first"), said("second")];
        let dataset = reflective_dataset(&runs, &selected, &signature, &words);
        assert_eq!(entries(section(&dataset[0], "Inputs")), [("question", question)]);
        assert_eq!(entries(section(&dataset[1], "Inputs")), [("question", "only")]);
        assert_eq!(words_of(section(&dataset[1], "Feedback")), "second");
    }
}

fn unread(question: &str) -> TraceStep {
    TraceStep {
        outputs: StepOutputs::Unparsed(FailedPrediction {
            completion_text: "unreadable".to_string(),
            format_reward: Some(double(0.0)),
        }),
        ..step("self", question, "", qa("Answer."))
    }
}

#[test]
fn a_failed_call_is_preferred_where_failures_are_wanted() {
    let runs = vec![captured(vec![
        step("self", "first?", "1", qa("Answer.")),
        unread("second?"),
        unread("third?"),
    ])];
    assert!(matches!(runs[0].choice(&qa("Answer."), true), Choice::Failure { step: 1 }));
    assert!(reflective_draws(&runs, &qa("Answer."), true).is_empty(), "no draw is made");
    assert_eq!(reflective_selection(&runs, &qa("Answer."), true, &Vec::new()), [(0, 1)]);
    assert_eq!(reflective_draws(&runs, &qa("Answer."), false), [1]);
}

#[test]
fn with_the_flag_off_no_record_survives() {
    let mut run = captured(vec![unread("q?")]);
    run.unparsed = Some(FailedPrediction {
        completion_text: "unreadable".to_string(),
        format_reward: Some(double(0.0)),
    });
    let runs = vec![run];
    assert!(matches!(runs[0].choice(&qa("Answer."), false), Choice::Nothing));
    let dataset = reflective_dataset(
        &runs,
        &reflective_selection(&runs, &qa("Answer."), true, &Vec::new()),
        &qa("Answer."),
        &vec![Words {
            feedback: "Your output failed to parse.".to_string(),
            unparsed: "Couldn't parse the output.".to_string(),
            messages: Vec::new(),
        }],
    );
    assert_eq!(words_of(section(&dataset[0], "Generated Outputs")), "Couldn't parse the output.");
    assert_eq!(words_of(section(&dataset[0], "Feedback")), "Your output failed to parse.");
}

#[test]
fn a_zero_format_reward_falls_back_to_the_constant() {
    let failed = FailedPrediction {
        completion_text: "unreadable".to_string(),
        format_reward: Some(double(0.0)),
    };
    assert_eq!(failed.score(double(-1.0)).bits, (-1.0f64).to_bits());
    assert_eq!(failed.score(double(0.75)).bits, 0.75f64.to_bits());
    let rewarded = FailedPrediction {
        completion_text: "unreadable".to_string(),
        format_reward: Some(double(0.5)),
    };
    assert_eq!(rewarded.score(double(-1.0)).bits, 0.5f64.to_bits());
}

const EVERYTHING: Capture = Capture { traces: true, track_best_outputs: true };

fn failing(some_field_parsed: bool) -> FieldMismatch {
    FieldMismatch {
        lm_response: "gibberish".to_string(),
        some_field_parsed,
        signature: qa("Answer."),
    }
}

#[test]
fn a_completion_reading_as_nothing_stays_in_the_batch() {
    let example = field("question", "q?");
    let predictors = vec![("self".to_string(), qa("Answer."))];
    let ran = did_not_parse(
        &example,
        field("question", "q?"),
        Vec::new(),
        Some(failing(false)),
        "could not parse",
        &predictors,
        double(-1.0),
        EVERYTHING,
    );
    assert_eq!(ran.score.map(|score| score.bits), Some((-1.0f64).to_bits()));
    let kept = ran.captured.expect("the run is kept");
    assert_eq!(kept.trace.len(), 1, "the failing call is recorded as its predictor's");
    assert_eq!(kept.trace[0].predictor, "self");
    assert_eq!(
        kept.trace[0].outputs.failure().expect("a failure").completion_text,
        "gibberish"
    );
    assert_eq!(kept.unparsed.expect("a failure").completion_text, "gibberish");
}

#[test]
fn a_completion_reading_as_something_is_dropped() {
    let ran = did_not_parse(
        &field("question", "q?"),
        field("question", "q?"),
        Vec::new(),
        Some(failing(true)),
        "could not parse",
        &Vec::new(),
        double(0.0),
        EVERYTHING,
    );
    assert!(ran.score.is_none());
    assert!(gather(vec![ran], false).scores.is_empty());
}

#[test]
fn any_other_error_keeps_its_own_words() {
    let ran = did_not_parse(
        &field("question", "q?"),
        field("question", "q?"),
        vec![step("self", "q?", "a", qa("Answer."))],
        None,
        "the provider is down",
        &Vec::new(),
        double(0.0),
        EVERYTHING,
    );
    let kept = ran.captured.expect("the run is kept");
    assert_eq!(kept.trace.len(), 1);
    assert_eq!(kept.unparsed.expect("a failure").completion_text, "the provider is down");
}

#[test]
fn a_batch_lines_up_its_scores_and_outputs() {
    let run = |score: f64| {
        answered(
            &field("question", "q?"),
            &Prediction::new(field("answer", "a"), "raw"),
            Vec::new(),
            &Feedback::score_only(double(score)),
            EVERYTHING,
        )
    };
    let dropped = did_not_parse(
        &field("question", "q?"),
        field("question", "q?"),
        Vec::new(),
        Some(failing(true)),
        "could not parse",
        &Vec::new(),
        double(0.0),
        EVERYTHING,
    );
    let batch = gather(vec![run(1.0), dropped, run(0.5)], true);
    let scores: Vec<f64> = batch.scores.iter().map(|score| f64::from_bits(score.bits)).collect();
    assert_eq!(scores, [1.0, 0.5]);
    assert_eq!(batch.captured.len(), 2);
    assert_eq!(batch.outputs.expect("tracked").len(), 2);
    assert!(gather(vec![run(1.0)], false).outputs.is_none());
}

#[test]
fn code_reflects_on_the_whole_run() {
    let runs = vec![captured(Vec::new())];
    let records = code_reflective_records(&runs, &vec!["1.0".to_string()]);
    assert_eq!(entries(section(&records[0], "Inputs")), [("question", "capital of France?")]);
    assert_eq!(entries(section(&records[0], "Generated Outputs")), [("answer", "Paris")]);
    assert_eq!(
        words_of(section(&records[0], "Feedback")),
        "This trajectory got a score of 1.0."
    );
}

#[test]
fn a_value_prints_as_itself_or_as_its_representation() {
    assert_eq!(print(&Value::text("plain")), "plain");
    assert_eq!(
        print(&Value::Other { json: "null".to_string(), repr: "None".to_string() }),
        "None"
    );
    assert_eq!(entries(&rendered_map(&field("a", "b"))), [("a", "b")]);
}

#[test]
fn a_full_eval_step_below_one_is_refused() {
    let refused = GEPA::auto_budget(1, 2, 10, 35, 0).expect_err("zero is refused");
    assert_eq!(refused, "full_eval_steps must be >= 1.");
}

#[test]
fn every_budget_dspy_worked_out_is_the_one_this_works_out() {
    // Two candidates of one predictor make four trials: 10 + 2 * 5 to start with, four minibatches
    // of 35, two periodic evaluations of the valset and a closing one.
    assert_eq!(GEPA::auto_budget(1, 2, 10, 35, 5), Ok(190));
    assert_eq!(GEPA::auto_budget(1, 6, 100, 35, 5), Ok(780));
    assert_eq!(GEPA::auto_budget(2, 6, 100, 35, 5), Ok(1330));
    assert_eq!(GEPA::auto_budget(3, 12, 300, 35, 5), Ok(4565));
    assert_eq!(GEPA::auto_budget(1, 1, 50, 3, 10), Ok(158));
    assert_eq!(GEPA::auto_budget(4, 18, 1000, 50, 1), Ok(72390));
    assert_eq!(GEPA::auto_budget(0, 7, 20, 10, 4), Ok(215));
    assert_eq!(GEPA::auto_budget(1, 0, 10, 35, 5), Ok(10), "no trial, no evaluation inside it");
}

#[test]
fn the_builder_sets_the_budget_it_works_out() {
    let budget = GEPA::auto_budget(2, 6, 100, 35, 5).expect("a budget");
    let gepa = GEPA::new().max_metric_calls(budget);
    assert_eq!(gepa.max_metric_calls, 1330);
    assert!(gepa.has_budget());
}

#[test]
fn the_settings_are_kept() {
    let gepa = GEPA::new()
        .num_threads(0)
        .max_metric_calls(40)
        .reflection_minibatch_size(3)
        .perfect_score(double(1.0))
        .skip_perfect_score(false)
        .failure_score(double(-1.0))
        .use_merge(false)
        .max_merge_invocations(2)
        .seed(9)
        .add_format_failure_as_feedback(true)
        .track_best_outputs(true);
    assert_eq!(gepa.num_threads, 1, "nobody runs on no thread");
    assert_eq!((gepa.max_metric_calls, gepa.seed, gepa.max_merge_invocations), (40, 9, 2));
    assert!(gepa.has_budget());
    assert!(gepa.track_best_outputs && gepa.add_format_failure_as_feedback);
    assert!(!gepa.use_merge && !gepa.skip_perfect_score);
    assert!(!GEPA::new().has_budget());
    assert!(gepa.refusal(true).is_some());
    assert!(gepa.refusal(false).is_none());
}

#[test]
fn the_seed_is_what_the_program_says() {
    let mut student = Program {
        predictors: vec![predictor("first", "Draft."), predictor("second", "Answer.")],
    };
    let seed = seed_candidate(&student);
    assert_eq!(
        seed,
        [
            ("first".to_string(), "Draft.".to_string()),
            ("second".to_string(), "Answer.".to_string()),
        ]
    );
    set_instructions(&mut student, &seed);
    assert_eq!(student.predictors[0].signature.instructions, "Draft.");
    set_instructions(&mut student, &vec![("second".to_string(), "GOOD".to_string())]);
    assert_eq!(student.predictors[0].signature.instructions, "Draft.");
    assert_eq!(student.predictors[1].signature.instructions, "GOOD");

    let asked = vec!["code".to_string(), "second".to_string()];
    let reflected = reflected_components(&student, &asked);
    assert_eq!(reflected.len(), 1);
    assert_eq!(reflected[0].0, "second");
    assert_eq!(reflected[0].1.instructions, "GOOD");
    assert_eq!(code_components(&vec!["code".to_string()], &asked), ["code".to_string()]);
}

#[test]
fn a_source_that_does_not_parse_is_dropped() {
    let mut flexes = vec![
        NamedFlex { name: "a".to_string(), source: "old a".to_string() },
        NamedFlex { name: "b".to_string(), source: "old b".to_string() },
        NamedFlex { name: "c".to_string(), source: "old c".to_string() },
    ];
    let candidate =
        vec![("a".to_string(), "new a".to_string()), ("b".to_string(), "new b".to_string())];
    bind_sources(&mut flexes, &candidate, &vec![true, false, true]);
    let sources: Vec<&str> = flexes.iter().map(|flex| flex.source.as_str()).collect();
    assert_eq!(sources, ["new a", "old b", "old c"]);
}

#[test]
fn only_a_dataset_that_holds_something_is_proposed_for() {
    let datasets = vec![
        ("b".to_string(), vec![sample(vec![("Feedback", text("fine"))])]),
        ("a".to_string(), vec![sample(vec![("Feedback", text("fine"))])]),
        ("c".to_string(), Vec::new()),
    ];
    let names: Vec<String> =
        usable_datasets(datasets).into_iter().map(|(name, _)| name).collect();
    assert_eq!(names, ["a", "b"]);
    let merged = merged_texts(
        vec![("a".to_string(), "1".to_string()), ("b".to_string(), "2".to_string())],
        vec![("b".to_string(), "3".to_string()), ("c".to_string(), "4".to_string())],
    );
    let texts: Vec<(&str, &str)> =
        merged.iter().map(|(name, text)| (name.as_str(), text.as_str())).collect();
    assert_eq!(texts, [("a", "1"), ("b", "3"), ("c", "4")]);
}

fn marks() -> Marks {
    Marks { start: "<<".to_string(), end: ">>".to_string() }
}

#[test]
fn every_recorded_example_renders_the_same_markdown() {
    let dataset: ReflectiveDataset = vec![
        sample(vec![
            ("Inputs", named(vec![("question", text(" what? ")), ("image", text("<<[1]>>"))])),
            ("Generated Outputs", text("plain\n")),
            ("Feedback", text("fine")),
        ]),
        sample(vec![
            ("Inputs", named(vec![])),
            ("Generated Outputs", Reflective::List(vec![text("one"), text("<<[2]>>")])),
        ]),
    ];
    let (markdown, media) = formatted(&dataset, &marks());
    assert_eq!(media, ["<<[1]>>", "<<[2]>>"]);
    assert_eq!(
        markdown,
        "The examples below include visual content (2 images total). Please analyze both the text and visual elements when suggesting improvements.\n\n\
         # Example 1\n## Inputs\n### question\nwhat?\n\n### image\n[IMAGE-1 - see visual content]\n\n\
         ## Generated Outputs\nplain\n\n## Feedback\nfine\n\n\n\n\
         # Example 2\n## Inputs\n\n## Generated Outputs\n### Item 1\none\n\n### Item 2\n[IMAGE-1 - see visual content]\n\n"
    );
}

#[test]
fn a_heading_goes_no_deeper_than_six() {
    let nested = named(vec![("a", named(vec![("b", named(vec![("c", named(vec![("d", named(vec![("e", text("x"))]))]))]))]))]);
    let mut media = Vec::new();
    let shown = render(&nested, 3, &mut media, &marks());
    assert_eq!(shown, "### a\n#### b\n##### c\n###### d\n###### e\nx\n\n");
    assert!(media.is_empty());
    assert!(marks().is_custom_type("<<>>"));
    assert!(!marks().is_custom_type("<<"));
}

fn feedback(words: &str) -> ReflectiveDataset {
    vec![sample(vec![("Inputs", named(vec![("q", text("x"))])), ("Feedback", text(words))])]
}

#[test]
fn the_feedback_is_summarised_by_its_words() {
    assert_eq!(summary(&feedback("hm")), None);
    assert_eq!(
        summary(&feedback("wellington")).as_deref(),
        Some("## Feedback Pattern Analysis\n\n**Successful Approaches Found (1 examples):**\nBuild on these successful strategies in the new instruction.\n")
    );
    assert_eq!(
        summary(&feedback("WRONG")).as_deref(),
        Some("## Feedback Pattern Analysis\n\n**Common Issues Found (1 examples):**\nFocus on preventing these types of mistakes in the new instruction.\n")
    );
    let every = summary(&feedback("incorrect, though it read well given the context"))
        .expect("every list is touched");
    assert!(every.contains("Common Issues Found (1 examples)"));
    assert!(every.contains("Successful Approaches Found (1 examples)"));
    assert!(every.contains("Domain Knowledge Needs Identified (1 examples)"));
}

#[test]
fn the_signature_is_the_one_dspy_declares() {
    let signature = MultiModalInstructionProposer::new("Improve the instruction.").signature;
    assert_eq!(signature.instructions, "Improve the instruction.");
    let inputs: Vec<(&str, &str)> =
        signature.inputs.iter().map(|field| (field.name.as_str(), field.desc.as_str())).collect();
    assert_eq!(
        inputs,
        [
            (
                "current_instruction",
                "The current instruction that was provided to the assistant to perform the multimodal task",
            ),
            (
                "examples_with_feedback",
                "Task examples with visual content showing inputs, assistant outputs, and feedback. Pay special attention to feedback about visual analysis accuracy, visual-textual integration, and any domain-specific visual knowledge that the assistant missed.",
            ),
        ]
    );
    let outputs: Vec<(&str, &str)> =
        signature.outputs.iter().map(|field| (field.name.as_str(), field.desc.as_str())).collect();
    assert_eq!(
        outputs,
        [(
            "improved_instruction",
            "A better instruction for the assistant that addresses visual analysis issues, provides clear guidance on how to process and integrate visual and textual information, includes necessary visual domain knowledge, and prevents the visual analysis mistakes shown in the examples.",
        )]
    );
}

#[test]
fn a_proposer_asks_for_what_both_sides_name() {
    let proposer = MultiModalInstructionProposer::new("Improve the instruction.");
    let candidate =
        vec![("a".to_string(), "1".to_string()), ("b".to_string(), "2".to_string())];
    let datasets = vec![("b".to_string(), feedback("fine")), ("c".to_string(), feedback("fine"))];
    let components = vec!["a".to_string(), "b".to_string(), "c".to_string()];
    assert_eq!(proposer.asked(&candidate, &components, &datasets), ["b".to_string()]);
    let (shown, media) = proposer.examples(&feedback("good"), &marks());
    assert!(shown.starts_with("## Feedback Pattern Analysis\n"));
    assert!(shown.ends_with("## Feedback\ngood\n\n"));
    assert!(media.is_empty());
}

#[test]
fn a_metric_is_told_what_it_is_scoring() {
    let trace = vec![step("self", "q?", "a", qa("Answer."))];
    let code = MetricContext::scoring_run(true, true, &trace);
    assert!(code.trace.is_none() && code.program_trace.is_some());
    let kept = MetricContext::scoring_run(false, true, &trace);
    assert!(kept.trace.is_some() && kept.program_trace.is_none());
    let bare = MetricContext::scoring_run(false, false, &trace);
    assert!(bare.trace.is_none() && bare.program_trace.is_none());
    assert!(MetricContext::scoring(Some(&trace)).trace.is_some());
    assert!(MetricContext::scoring_a_program(&trace).program_trace.is_some());
    let reflecting = MetricContext::reflecting(&trace, "self", &trace[0]);
    assert_eq!(reflecting.predictor, Some("self"));
    assert!(reflecting.predictor_step.is_some());
}

#[test]
fn a_decision_has_its_own_word() {
    assert_ne!(Decision::Selected.word(), Decision::Proposed.word());
    assert_ne!(
        Decision::Accepted { is_best: true }.word(),
        Decision::Rejected.word()
    );
}
