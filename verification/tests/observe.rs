//! What a watcher is told, and what nobody watches costs nothing.

use dsrust::example::{Example, Prediction, Value};
use dsrust::lm::turn::{ChatTurn, Content};
use dsrust::observe::compile::{compiling_sync, ActiveCompiles};
use dsrust::observe::evaluating::{evaluating, scored, Evaluation, Pass};
use dsrust::observe::interpreter::{
    executing, interpreter_lifecycle, interpreter_tool_call, InterpreterLifecycle,
};
use dsrust::observe::telling::{Answer, Given, Point, Telling, Told};
use dsrust::observe::{
    as_json, formatting, lm_ended, lm_shown, module_ended, module_shown, parsing, tool_call,
    Audience, Watch,
};
use dsrust::signature::Signature;

fn nobody() -> Audience {
    Audience { recording: false, listeners: vec![] }
}

fn everybody() -> Audience {
    Audience { recording: true, listeners: vec![1, 2] }
}

/// The listeners told, in order, and what the first of them was given and answered.
fn one_start_and_one_end(watch: &Watch, listeners: &[u64]) -> (Given, Point, Result<Answer, String>) {
    let heard: Vec<u64> = watch.told.iter().map(|told| told.listener).collect();
    assert_eq!(heard, [listeners, listeners].concat());
    let n = listeners.len();
    for told in &watch.told[..n] {
        assert!(matches!(&told.telling, Telling::Started { call, .. } if *call == watch.call));
    }
    for told in &watch.told[n..] {
        assert!(matches!(&told.telling, Telling::Ended { call, .. } if *call == watch.call));
    }
    let Telling::Started { given, .. } = told(&watch.told[0]) else { unreachable!("a start") };
    let Telling::Ended { point, answered, .. } = told(&watch.told[n]) else {
        unreachable!("an end")
    };
    (given, point, answered)
}

fn told(told: &Told) -> Telling {
    dsrust::duplicate::Duplicate::duplicate(&told.telling)
}

fn qa() -> Signature {
    Signature { instructions: "Answer.".to_string(), inputs: vec![], outputs: vec![] }
}

fn number(text: &str) -> Value {
    Value::Other { json: text.to_string(), repr: text.to_string() }
}

fn recorded<'a>(watch: &'a Watch, name: &str) -> Option<&'a str> {
    watch.fields.iter().find(|(field, _)| field == name).map(|(_, value)| value.as_str())
}

#[test]
fn an_examples_fields_render_as_the_dict_dspy_passes() {
    let example = Example::new()
        .with("question", Value::text("capital of France?"))
        .with("hops", number("2"));
    assert_eq!(as_json(&example), r#"{"question":"capital of France?","hops":2}"#);
    assert_eq!(as_json(&Example::default()), "{}");
}

#[test]
fn a_field_name_is_escaped() {
    let example = Example::new().with(r#"od"d"#, number("1"));
    assert_eq!(as_json(&example), r#"{"od\"d":1}"#);
}

#[test]
fn a_control_character_is_escaped() {
    let example = Example::new().with("a", Value::text("tab\tline\nbell\u{7}slash\\"));
    assert_eq!(as_json(&example), "{\"a\":\"tab\\tline\\nbell\\u0007slash\\\\\"}");
}

#[test]
fn a_disabled_span_records_nothing() {
    let mut watch = Watch::open("dsrust.module", 0, &nobody());
    watch.shown(|| unreachable!("a disabled span asks for no inputs"));
    let answered: Result<(), String> = Ok(());
    watch.finished(&answered, |_| unreachable!("a disabled span asks for no description"));
    watch.record("ignored", "value");
    assert!(watch.fields.is_empty());
    assert!(watch.told.is_empty());
}

#[test]
fn a_module_is_told_of_with_its_kind_and_inputs() {
    let inputs = Example::new().with("question", Value::text("q?"));
    let mut watch = module_shown("Predict", &inputs, 7, &everybody());
    assert_eq!(recorded(&watch, "module"), Some("Predict"));
    assert_eq!(recorded(&watch, "inputs"), Some(r#"{"question":"q?"}"#));
    assert_eq!(watch.told.len(), 2, "both listeners heard the start, and nothing else yet");
    let answer = Prediction::new(Example::new().with("answer", Value::text("a")), "raw");
    module_ended(&mut watch, &Ok(answer));
    assert_eq!(recorded(&watch, "outputs"), Some(r#"{"answer":"a"}"#));
    let (given, point, answered) = one_start_and_one_end(&watch, &[1, 2]);
    assert!(matches!(given, Given::Module { kind, inputs: shown }
        if kind == "Predict" && shown.same(&inputs)));
    assert_eq!(point, Point::Module);
    assert!(matches!(answered, Ok(Answer::Predicted(prediction)) if prediction.completion == "raw"));
    assert_eq!(watch.call, 7);

    let mut unheard = module_shown("Predict", &inputs, 8, &nobody());
    module_ended(&mut unheard, &Err("down".to_string()));
    assert!(unheard.fields.is_empty());
    assert!(unheard.told.is_empty());
}

#[test]
fn a_models_own_listeners_hear_its_start_and_its_end() {
    let mut watch = lm_shown("gpt-4o", "{\"messages\":[]}", &vec![9], 3, &everybody());
    lm_ended(&mut watch, &Err("down".to_string()));
    assert_eq!(recorded(&watch, "model"), Some("gpt-4o"));
    assert_eq!(recorded(&watch, "error"), Some("down"));
    let (given, point, answered) = one_start_and_one_end(&watch, &[1, 2, 9]);
    assert!(matches!(given, Given::Lm { model, request }
        if model == "gpt-4o" && request == "{\"messages\":[]}"));
    assert_eq!(point, Point::Lm);
    assert!(matches!(answered, Err(error) if error == "down"));

    let only_its_own = lm_shown("gpt-4o", "{}", &vec![9], 4, &nobody());
    assert_eq!(only_its_own.told.len(), 1);
    assert_eq!(only_its_own.told[0].listener, 9);
}

#[test]
fn a_tool_call_and_a_parse_are_told_around_the_work() {
    let args = number("{\"q\":1}");
    let (answer, watch) = tool_call("search", &args, 5, &everybody(), |under| {
        assert_eq!(under.call, 5);
        assert_eq!(under.told.len(), 2, "the start is told before the call, the end is not");
        Ok(Value::text("found"))
    });
    assert!(answer.is_ok());
    assert_eq!(recorded(&watch, "inputs"), Some("{\"q\":1}"));
    assert_eq!(recorded(&watch, "outputs"), Some("\"found\""));
    let (given, point, answered) = one_start_and_one_end(&watch, &[1, 2]);
    assert!(matches!(given, Given::Tool { tool, args: Value::Other { json, .. } }
        if tool == "search" && json == "{\"q\":1}"));
    assert_eq!(point, Point::Tool);
    assert!(matches!(answered, Ok(Answer::Returned(Value::Text(text))) if text == "found"));

    let (answer, watch) =
        parsing("chat", "raw text", 6, &everybody(), |_| Err("no field".to_string()));
    assert!(answer.is_err());
    let (given, point, answered) = one_start_and_one_end(&watch, &[1, 2]);
    assert!(matches!(given, Given::AdapterParse { adapter, raw }
        if adapter == "chat" && raw == "raw text"));
    assert_eq!(point, Point::AdapterParse);
    assert!(matches!(answered, Err(error) if error == "no field"), "a failure is still told");
}

#[test]
fn a_render_is_told_with_everything_it_renders() {
    let demos = vec![Example::new().with("question", Value::text("shown"))];
    let inputs = vec![("question".to_string(), Value::text("asked"))];
    let (answer, watch) = formatting("chat", &qa(), &demos, &inputs, 2, &everybody(), |_| {
        Ok(("be brief".to_string(), vec![ChatTurn::user(Content::Text("hi".to_string()))]))
    });
    assert!(answer.is_ok());
    assert_eq!(recorded(&watch, "outputs"), Some("{\"system_bytes\":8,\"turns\":1}"));
    let (given, point, answered) = one_start_and_one_end(&watch, &[1, 2]);
    let Given::AdapterFormat { adapter, signature, demos: shown, inputs: asked } = given else {
        unreachable!("a render")
    };
    assert_eq!((adapter.as_str(), signature.instructions.as_str()), ("chat", "Answer."));
    assert!(shown[0].same(&demos[0]));
    assert_eq!(asked[0].0, "question");
    assert_eq!(point, Point::AdapterFormat);
    assert!(matches!(answered, Ok(Answer::Rendered { system, turns })
        if system == "be brief" && turns.len() == 1));
}

#[test]
fn an_optimizer_already_compiling_opens_no_second_point() {
    let rows = vec![Example::new().with("question", Value::text("q?"))];
    let mut active = ActiveCompiles::none();
    let (inner, watch) = compiling_sync(
        &mut active,
        "COPRO",
        9,
        &rows,
        Some(&rows),
        1,
        &everybody(),
        |running, under| running.holds(9) && under.is_some_and(|watch| watch.told.len() == 2),
    );
    assert!(inner, "the work runs while the instance is on the list, its start told");
    let watch = watch.expect("a point of its own");
    let (given, point, answered) = one_start_and_one_end(&watch, &[1, 2]);
    assert!(matches!(given, Given::Compile { optimizer, trainset, valset: Some(valset) }
        if optimizer == "COPRO" && trainset[0].same(&rows[0]) && valset.len() == 1));
    assert_eq!(point, Point::Compile);
    assert!(matches!(answered, Ok(Answer::Done)));
    assert!(!active.holds(9), "and is off it afterwards");

    active.enter(9);
    let (seen, watch) =
        compiling_sync(&mut active, "COPRO", 9, &rows, None, 2, &everybody(), |_, under| {
            under.is_some()
        });
    assert!(watch.is_none());
    assert!(!seen, "there is no point to work under");
    assert!(active.holds(9), "the outer compile still runs");
    active.leave(9);
    assert!(!active.holds(9));
    let (_, watch) =
        compiling_sync(&mut active, "COPRO", 9, &rows, None, 3, &everybody(), |_, _| ());
    assert!(watch.is_some(), "a later compile is told of again");
}

#[test]
fn a_scoring_says_which_pass_it_is() {
    assert_eq!(Pass::Full.name(), "full");
    assert_eq!(Pass::Minibatch.name(), "minibatch");
    let devset = vec![
        Example::new().with("question", Value::text("one")),
        Example::new().with("question", Value::text("two")),
    ];
    let mut watch = evaluating(&devset, 4, Some(Pass::Minibatch), 11, &everybody());
    assert_eq!(recorded(&watch, "rows"), Some("2"));
    assert_eq!(recorded(&watch, "threads"), Some("4"));
    assert_eq!(recorded(&watch, "pass"), Some("minibatch"));
    scored(&mut watch, &Ok(Evaluation { score: "0.5".to_string(), rows: 2, failed: 1 }));
    assert_eq!(
        recorded(&watch, "outputs"),
        Some("{\"score\":0.5,\"rows\":2,\"failed\":1}")
    );
    let (given, point, answered) = one_start_and_one_end(&watch, &[1, 2]);
    assert!(matches!(given, Given::Evaluate { devset: shown, threads: 4, pass: Some(Pass::Minibatch) }
        if shown.len() == 2 && shown[0].same(&devset[0]) && shown[1].same(&devset[1])));
    assert_eq!(point, Point::Evaluate);
    assert!(matches!(answered, Ok(Answer::Evaluated(found)) if found.failed == 1));

    let mut watch = evaluating(&devset, 1, None, 12, &everybody());
    scored(&mut watch, &Err("too many failures".to_string()));
    assert_eq!(recorded(&watch, "pass"), None);
    let (_, _, answered) = one_start_and_one_end(&watch, &[1, 2]);
    assert!(matches!(answered, Err(error) if error == "too many failures"));
}

#[test]
fn an_interpreter_is_watched_from_start_to_end() {
    assert_ne!(InterpreterLifecycle::Startup.name(), InterpreterLifecycle::Shutdown.name());
    let (answer, watch) = executing("python", "1 + 1", 1, &everybody(), |_| Ok("2".to_string()));
    assert_eq!(answer, Ok("2".to_string()));
    assert_eq!(recorded(&watch, "inputs"), Some("1 + 1"));
    let (given, point, answered) = one_start_and_one_end(&watch, &[1, 2]);
    assert!(matches!(given, Given::InterpreterExecute { interpreter, code }
        if interpreter == "python" && code == "1 + 1"));
    assert_eq!(point, Point::InterpreterExecute);
    assert!(matches!(answered, Ok(Answer::Executed(text)) if text == "2"));

    let (answer, watch) =
        interpreter_tool_call("search", &number("{}"), 2, &everybody(), |_| Ok(Value::text("ok")));
    assert!(answer.is_ok());
    let (given, point, _) = one_start_and_one_end(&watch, &[1, 2]);
    assert!(matches!(given, Given::InterpreterToolCall { tool, .. } if tool == "search"));
    assert_eq!(point, Point::InterpreterToolCall);

    for (end, told_as) in [
        (InterpreterLifecycle::Startup, Point::InterpreterStartup),
        (InterpreterLifecycle::Shutdown, Point::InterpreterShutdown),
    ] {
        let (answer, watch) = interpreter_lifecycle(end, "python", 3, &everybody(), |_| {
            Err("no interpreter".to_string())
        });
        assert!(answer.is_err());
        let (given, point, answered) = one_start_and_one_end(&watch, &[1, 2]);
        assert!(matches!(given, Given::InterpreterLifecycle { end: told_end, .. }
            if told_end == end));
        assert_eq!(point, told_as);
        assert!(matches!(answered, Err(error) if error == "no interpreter"));
    }
}
