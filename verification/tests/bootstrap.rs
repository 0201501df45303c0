//! Compiling with demos: labelled ones drawn from the trainset, and ones a teacher earned.

use dsrust::double::Double;
use dsrust::example::{Example, Prediction, Value};
use dsrust::module::trace::{FailedPrediction, StepOutputs, TraceStep};
use dsrust::optimize::bootstrap::{
    augmented_turn, same_shape, unsolved_examples, Attempted, BootstrapFewShot, Progress, Walk,
};
use dsrust::optimize::draw::pick;
use dsrust::optimize::earned::{collapse, Bootstrapped, Solved};
use dsrust::optimize::labeled::LabeledFewShot;
use dsrust::optimize::scoring::{Evaluate, Scoring};
use dsrust::program::{NamedPredictor, Program, Sampling};
use dsrust::signature::{input, output, Signature};

fn double(value: f64) -> Double {
    Double::from_bits(value.to_bits())
}

fn signature(instructions: &str) -> Signature {
    Signature {
        instructions: instructions.to_string(),
        inputs: vec![input("question", "")],
        outputs: Vec::new(),
    }
}

fn predictor(name: &str) -> NamedPredictor {
    NamedPredictor {
        name: name.to_string(),
        signature: signature("Answer."),
        demos: Vec::new(),
        config: Sampling::default(),
        hint: None,
        lm: None,
    }
}

fn program(names: &[&str]) -> Program {
    Program { predictors: names.iter().map(|name| predictor(name)).collect() }
}

fn solver() -> Program {
    program(&["self"])
}

fn pair() -> Program {
    program(&["first", "second"])
}

fn turn(question: &str, answer: &str) -> Example {
    Example::new().with("question", Value::text(question)).with("answer", Value::text(answer))
}

fn trainset() -> Vec<Example> {
    let mut examples = vec![
        turn("capital of France?", "Paris"),
        turn("capital of Germany?", "Berlin"),
    ];
    examples.extend((0..4).map(|index| {
        turn(&format!("riddle {index}?"), &format!("riddle {index}!"))
    }));
    examples
        .into_iter()
        .map(|example| example.with_inputs(vec!["question".to_string()]))
        .collect()
}

fn answers(demos: &[Example]) -> Vec<String> {
    demos
        .iter()
        .filter_map(|demo| demo.get("answer")?.as_str().map(str::to_string))
        .collect()
}

/// How a scripted program answers.
#[derive(Clone, Copy)]
enum Answers {
    Correctly,
    Wrongly,
    RightOnRound(usize),
    Failing,
}

/// What a scripted program records of a run.
#[derive(Clone, Copy)]
enum Shape {
    /// Nothing: only what the whole program answered is known.
    Untraced,
    /// The first half drafts, the second answers from the draft.
    Pair,
    /// One of two predictors runs.
    Lopsided,
    /// One predictor, called twice.
    TwoHop,
}

/// What a program was looking at when it was asked one question.
struct Call {
    question: String,
    demos: Vec<Vec<String>>,
    config: Sampling,
}

fn table(question: &str) -> &'static str {
    if question.contains("France") {
        "Paris"
    } else {
        "Berlin"
    }
}

fn exact_match(example: &Example, prediction: &Prediction) -> f64 {
    if example.text("answer") == prediction.example.text("answer") {
        1.0
    } else {
        0.0
    }
}

fn step(name: &str, inputs: Example, outputs: Example) -> TraceStep {
    TraceStep {
        predictor: name.to_string(),
        inputs,
        outputs: StepOutputs::Answered(outputs),
        signature: signature("Answer."),
    }
}

fn traced(shape: Shape, inputs: &Example, answer: &str) -> Vec<TraceStep> {
    let answered = || Example::new().with("answer", Value::text(answer));
    match shape {
        Shape::Untraced => Vec::new(),
        Shape::Pair => {
            let draft = || Example::new().with("draft", Value::text(&format!("draft: {answer}")));
            vec![step("first", inputs.clone(), draft()), step("second", draft(), answered())]
        }
        Shape::Lopsided => vec![step("ran", inputs.clone(), answered())],
        Shape::TwoHop => vec![
            step("self", inputs.clone(), answered().with("hop", Value::text("first"))),
            step("self", inputs.clone(), answered().with("hop", Value::text("second"))),
        ],
    }
}

/// The first so many positions of a list.
fn front(count: usize) -> Vec<usize> {
    (0..count).collect()
}

struct Compiled {
    student: Program,
    teacher: Program,
    kept: usize,
    calls: Vec<Call>,
}

/// A scripted program that runs, and what it was asked.
struct Scripted {
    answers: Answers,
    calls: Vec<Call>,
}

impl Scripted {
    fn new(answers: Answers) -> Self {
        Scripted { answers, calls: Vec::new() }
    }

    /// Answers one question, as this program with these demos and settings.
    fn run(&mut self, program: &Program, question: &str) -> Result<&'static str, String> {
        let before = self.calls.iter().filter(|call| call.question == question).count();
        self.calls.push(Call {
            question: question.to_string(),
            demos: program
                .predictors
                .iter()
                .map(|predictor| {
                    predictor.demos.iter().map(|demo| demo.text("question")).collect()
                })
                .collect(),
            config: program.predictors[0].config,
        });
        let correct = match self.answers {
            Answers::Correctly => true,
            Answers::Wrongly => false,
            Answers::RightOnRound(round) => before + 1 >= round,
            Answers::Failing => return Err("the provider is down".to_string()),
        };
        Ok(if correct { table(question) } else { "no idea" })
    }
}

/// A compile against a scripted program, whose draws take the front of what they are drawn from.
fn compile_with<M: Fn(&Example, &Prediction) -> f64>(
    settings: BootstrapFewShot,
    student: Program,
    teacher: Program,
    trainset: &Vec<Example>,
    answers: Answers,
    shape: Shape,
    metric: M,
) -> Result<Compiled, String> {
    let mut running = Scripted::new(answers);
    let mut compiled =
        compile_run(settings, student, teacher, trainset, &mut running, shape, metric)?;
    compiled.calls = running.calls;
    Ok(compiled)
}

/// A compile in which the teacher runs as the given scripted program.
fn compile_run<M: Fn(&Example, &Prediction) -> f64>(
    settings: BootstrapFewShot,
    mut student: Program,
    mut teacher: Program,
    trainset: &Vec<Example>,
    running: &mut Scripted,
    shape: Shape,
    metric: M,
) -> Result<Compiled, String> {
    same_shape(&student, &teacher).map_err(|differs| differs.message())?;
    let shown = settings.max_labeled_demos.min(trainset.len());
    let draws: Vec<Vec<usize>> = teacher.predictors.iter().map(|_| front(shown)).collect();
    settings.prime(&mut teacher, trainset, &draws);

    let mut bootstrapped = Bootstrapped::empty();
    let mut walk = Walk::begin(settings, trainset.len());
    let mut failure = String::new();
    while let Progress::Attempting { index, round } = walk.progress {
        let example = &trainset[index];
        let Some(inputs) = example.inputs() else {
            failure = "inputs have not been set".to_string();
            walk.attempted(Attempted::Failed);
            continue;
        };
        let asked = settings.shown(&teacher, example, round);
        let answer = match running.run(&asked, &inputs.text("question")) {
            Ok(answer) => answer,
            Err(error) => {
                failure = error;
                walk.attempted(Attempted::Failed);
                continue;
            }
        };
        let prediction =
            Prediction::new(Example::new().with("answer", Value::text(answer)), "raw");
        let score = double(metric(example, &prediction));
        match settings.attempt(&inputs, &prediction, &traced(shape, &inputs, answer), score) {
            Some(solved) => {
                let survivors: Vec<usize> = solved
                    .groups()
                    .iter()
                    .map(|(_, demos)| {
                        if demos.len() > 1 {
                            collapse(demos.len(), true, 0)
                        } else {
                            0
                        }
                    })
                    .collect();
                bootstrapped.file(&solved, &survivors);
                walk.attempted(Attempted::Solved);
            }
            None => walk.attempted(Attempted::Rejected),
        }
    }
    if let Progress::GaveUp = walk.progress {
        return Err(failure);
    }
    bootstrapped.validation = unsolved_examples(trainset, &walk.solved);

    let mut left = bootstrapped.validation.len();
    let mut draws: Vec<Vec<usize>> = Vec::new();
    for predictor in &student.predictors {
        let room = settings.training_draw(&bootstrapped, &predictor.name, left);
        draws.push(front(room));
        left = room;
    }
    let kept = settings.train(&mut student, &bootstrapped, &walk, &draws);
    Ok(Compiled { student, teacher, kept, calls: Vec::new() })
}

fn compile(
    settings: BootstrapFewShot,
    student: Program,
    answers: Answers,
    shape: Shape,
) -> Compiled {
    let teacher = program(
        &student.predictors.iter().map(|predictor| predictor.name.as_str()).collect::<Vec<_>>(),
    );
    compile_with(settings, student, teacher, &trainset(), answers, shape, exact_match)
        .expect("compile succeeds")
}

fn bootstrap() -> BootstrapFewShot {
    BootstrapFewShot { max_labeled_demos: 0, ..BootstrapFewShot::new() }
}

const SOLVABLE: [&str; 2] = ["Paris", "Berlin"];

#[test]
fn the_fixture_describes_the_program_the_rust_side_runs() {
    let ours: Vec<(String, String)> = trainset()
        .iter()
        .map(|example| (example.text("question"), example.text("answer")))
        .collect();
    let recorded = [
        ("capital of France?", "Paris"),
        ("capital of Germany?", "Berlin"),
        ("riddle 0?", "riddle 0!"),
        ("riddle 1?", "riddle 1!"),
        ("riddle 2?", "riddle 2!"),
        ("riddle 3?", "riddle 3!"),
    ];
    assert_eq!(ours.len(), recorded.len());
    for (ours, recorded) in ours.iter().zip(recorded) {
        assert_eq!((ours.0.as_str(), ours.1.as_str()), recorded);
    }
}

#[test]
fn labeled_few_shot_writes_demos_into_the_program() {
    let mut student = solver();
    LabeledFewShot::new(2).compile(&mut student, &trainset(), &vec![vec![4, 1]]);
    assert_eq!(student.predictors[0].demos.len(), 2);
}

#[test]
fn k_caps_the_demo_count() {
    let mut student = solver();
    let labeled = LabeledFewShot::new(1);
    assert_eq!(labeled.draw_size(trainset().len()), Some(1));
    labeled.compile(&mut student, &trainset(), &vec![vec![3]]);
    assert_eq!(student.predictors[0].demos.len(), 1);
}

#[test]
fn a_trainset_shorter_than_k_is_taken_whole() {
    let mut student = solver();
    let labeled = LabeledFewShot::new(50);
    assert_eq!(labeled.draw_size(trainset().len()), Some(6));
    labeled.compile(&mut student, &trainset(), &vec![vec![5, 3, 1, 0, 2, 4]]);
    assert_eq!(student.predictors[0].demos.len(), trainset().len());
}

#[test]
fn an_empty_trainset_clears_the_demos() {
    let mut student = solver();
    student.set_demos(0, vec![turn("stale", "stale")]);
    let labeled = LabeledFewShot::new(4);
    assert_eq!(labeled.draw_size(0), None);
    labeled.compile(&mut student, &Vec::new(), &Vec::new());
    assert!(student.predictors[0].demos.is_empty());
}

#[test]
fn compiling_twice_replaces_rather_than_appends() {
    let mut student = solver();
    LabeledFewShot::new(3).compile(&mut student, &trainset(), &vec![vec![0, 1, 2]]);
    LabeledFewShot::new(3).compile(&mut student, &trainset(), &vec![vec![3, 4, 5]]);
    assert_eq!(student.predictors[0].demos.len(), 3);
}

#[test]
fn each_predictor_draws_its_own_sample() {
    let mut student = pair();
    LabeledFewShot::new(3).compile(
        &mut student,
        &trainset(),
        &vec![vec![0, 2, 4], vec![5, 1, 3]],
    );
    assert_eq!(student.predictors[0].demos.len(), 3);
    assert_ne!(answers(&student.predictors[0].demos), answers(&student.predictors[1].demos));
}

#[test]
fn the_unsampled_path_takes_the_front_of_the_trainset_in_order() {
    let mut student = solver();
    let labeled = LabeledFewShot { sample: false, ..LabeledFewShot::new(2) };
    assert_eq!(labeled.draw_size(6), None);
    labeled.compile(&mut student, &trainset(), &Vec::new());
    assert_eq!(answers(&student.predictors[0].demos), ["Paris", "Berlin"]);
}

#[test]
fn sampling_reorders_rather_than_taking_the_front() {
    let mut student = solver();
    LabeledFewShot::new(trainset().len()).compile(
        &mut student,
        &trainset(),
        &vec![vec![5, 4, 3, 2, 1, 0]],
    );
    assert_ne!(answers(&student.predictors[0].demos), answers(&trainset()));
}

#[test]
fn zero_labeled_demos_leaves_the_teachers_own_demos_standing() {
    let mut teacher = solver();
    teacher.set_demos(0, vec![turn("kept?", "kept")]);
    let settings = BootstrapFewShot { max_bootstrapped_demos: 1, ..bootstrap() };
    let compiled = compile_with(
        settings,
        solver(),
        teacher,
        &trainset()[..1].to_vec(),
        Answers::Correctly,
        Shape::Untraced,
        exact_match,
    )
    .expect("bootstraps");
    let demos = &compiled.teacher.predictors[0].demos;
    assert_eq!(demos.len(), 1);
    assert_eq!(demos[0].text("question"), "kept?");
}

#[test]
fn a_predictor_called_twice_keeps_the_demo_the_coin_names() {
    let settings = BootstrapFewShot { max_bootstrapped_demos: 4, ..bootstrap() };
    let compiled = compile_with(
        settings,
        solver(),
        solver(),
        &trainset()[..1].to_vec(),
        Answers::Correctly,
        Shape::TwoHop,
        exact_match,
    )
    .expect("compiles");
    let demos = &compiled.student.predictors[0].demos;
    assert_eq!(demos.len(), 1, "two traces collapse to one demo");
    assert_eq!(demos[0].text("hop"), "first");
    assert!(demos[0].has("augmented"));
}

#[test]
fn the_coin_keeps_the_last_or_an_earlier_trace() {
    assert_eq!(collapse(3, false, 0), 2);
    assert_eq!(collapse(3, true, 1), 1);
}

#[test]
fn bootstrap_keeps_only_the_attempts_the_metric_accepts() {
    let compiled = compile(bootstrap(), solver(), Answers::Correctly, Shape::Untraced);
    let demos = &compiled.student.predictors[0].demos;
    assert_eq!(compiled.kept, 2);
    assert_eq!(answers(demos), SOLVABLE);
    assert_eq!(demos[0].text("question"), "capital of France?");
}

#[test]
fn a_program_that_never_succeeds_bootstraps_nothing() {
    let compiled = compile(bootstrap(), solver(), Answers::Wrongly, Shape::Untraced);
    assert_eq!(compiled.kept, 0);
    assert!(compiled.student.predictors[0].demos.is_empty());
}

#[test]
fn max_bootstrapped_demos_stops_the_walk_rather_than_truncating_it() {
    let settings = BootstrapFewShot { max_bootstrapped_demos: 1, ..bootstrap() };
    let compiled = compile(settings, solver(), Answers::Correctly, Shape::Untraced);
    assert_eq!(compiled.kept, 1);
    assert_eq!(compiled.calls.len(), 1);
}

#[test]
fn bootstrapped_demos_lead_and_labeled_ones_fill_the_rest_of_the_budget() {
    let settings = BootstrapFewShot { max_labeled_demos: 3, ..bootstrap() };
    let compiled = compile(settings, solver(), Answers::Correctly, Shape::Untraced);
    let kept = answers(&compiled.student.predictors[0].demos);
    assert_eq!(kept.len(), 3);
    assert_eq!(kept[..2], SOLVABLE);
    assert!(kept[2].starts_with("riddle"));
}

#[test]
fn a_labeled_budget_smaller_than_the_bootstrapped_demos_adds_nothing() {
    let settings = BootstrapFewShot { max_labeled_demos: 1, ..bootstrap() };
    let compiled = compile(settings, solver(), Answers::Correctly, Shape::Untraced);
    assert_eq!(answers(&compiled.student.predictors[0].demos), SOLVABLE);
}

#[test]
fn the_examples_that_were_never_solved_become_labeled_demos() {
    let settings = BootstrapFewShot { max_labeled_demos: 16, ..bootstrap() };
    let compiled = compile(settings, solver(), Answers::Wrongly, Shape::Untraced);
    assert_eq!(compiled.student.predictors[0].demos.len(), trainset().len());
}

#[test]
fn max_rounds_reattempts_an_example_until_one_round_succeeds() {
    let settings =
        BootstrapFewShot { max_rounds: 2, max_bootstrapped_demos: 1, ..bootstrap() };
    let compiled = compile(settings, solver(), Answers::RightOnRound(2), Shape::Untraced);
    assert_eq!(compiled.kept, 1);

    let once = BootstrapFewShot { max_rounds: 1, ..settings };
    let compiled = compile(once, solver(), Answers::RightOnRound(2), Shape::Untraced);
    assert_eq!(compiled.kept, 0, "one round should not get a second ask");
}

#[test]
fn every_round_after_the_first_is_asked_as_a_fresh_rollout() {
    let settings =
        BootstrapFewShot { max_rounds: 3, max_bootstrapped_demos: 1, ..bootstrap() };
    let compiled = compile(settings, solver(), Answers::RightOnRound(3), Shape::Untraced);
    let asks: Vec<Sampling> = compiled.calls.iter().take(3).map(|call| call.config).collect();
    assert_eq!(asks[0].rollout_id, None);
    assert!(asks[0].temperature.is_none());
    assert_eq!(asks[1].rollout_id, Some(1));
    assert_eq!(asks[2].rollout_id, Some(2));
    assert_eq!(asks[2].temperature.map(|heat| heat.bits), Some(1.0f64.to_bits()));
}

#[test]
fn the_teacher_is_left_asking_the_way_it_was_found() {
    let mut teacher = solver();
    let resting = Sampling { temperature: Some(double(0.2)), ..Sampling::default() };
    teacher.set_config(resting);
    let settings = BootstrapFewShot { max_rounds: 3, ..bootstrap() };
    let compiled = compile_with(
        settings,
        solver(),
        teacher,
        &trainset(),
        Answers::Wrongly,
        Shape::Untraced,
        exact_match,
    )
    .expect("compile succeeds");
    let left = compiled.teacher.predictors[0].config;
    assert_eq!(left.temperature.map(|heat| heat.bits), Some(0.2f64.to_bits()));
    assert_eq!(left.rollout_id, None);
}

#[test]
fn a_round_that_succeeds_ends_the_rounds_for_that_example() {
    let settings =
        BootstrapFewShot { max_rounds: 5, max_bootstrapped_demos: 1, ..bootstrap() };
    let compiled = compile(settings, solver(), Answers::Correctly, Shape::Untraced);
    assert_eq!(compiled.calls.len(), 1, "asked again after succeeding");
}

#[test]
fn the_error_budget_ends_the_compile_and_hands_back_the_failure() {
    let settings = BootstrapFewShot { max_errors: 1, ..bootstrap() };
    let mut running = Scripted::new(Answers::Failing);
    let error = compile_run(
        settings,
        solver(),
        solver(),
        &trainset(),
        &mut running,
        Shape::Untraced,
        exact_match,
    )
    .err()
    .expect("the budget should have been spent");
    assert!(error.contains("the provider is down"));
    assert_eq!(running.calls.len(), 1, "the walk continued past the error budget");
}

#[test]
fn failures_under_the_budget_are_absorbed_and_the_walk_carries_on() {
    let settings = BootstrapFewShot { max_errors: 99, ..bootstrap() };
    let compiled = compile(settings, solver(), Answers::Failing, Shape::Untraced);
    assert_eq!(compiled.kept, 0);
    assert_eq!(compiled.calls.len(), trainset().len());
}

#[test]
fn an_undeclared_example_is_charged_to_the_error_budget() {
    let settings = BootstrapFewShot { max_errors: 1, ..bootstrap() };
    let error = compile_with(
        settings,
        solver(),
        solver(),
        &vec![turn("capital of France?", "Paris")],
        Answers::Correctly,
        Shape::Untraced,
        exact_match,
    )
    .err()
    .expect("an undeclared example cannot be asked");
    assert!(error.contains("inputs have not been set"));
}

fn scored_always(threshold: Option<f64>, score: f64, answers: Answers) -> usize {
    let settings =
        BootstrapFewShot { metric_threshold: threshold.map(double), ..bootstrap() };
    compile_with(
        settings,
        solver(),
        solver(),
        &trainset(),
        answers,
        Shape::Untraced,
        |_: &Example, _: &Prediction| score,
    )
    .expect("compile succeeds")
    .kept
}

#[test]
fn without_a_threshold_any_non_zero_score_is_a_success() {
    assert_eq!(scored_always(None, 0.5, Answers::Wrongly), 4);
}

#[test]
fn a_threshold_turns_the_metric_into_a_comparison() {
    assert_eq!(scored_always(Some(0.8), 0.5, Answers::Correctly), 0, "0.5 is under 0.8");
    assert_eq!(scored_always(Some(0.4), 0.5, Answers::Correctly), 4);
}

#[test]
fn a_threshold_of_zero_means_no_threshold_at_all() {
    assert_eq!(scored_always(Some(0.0), -1.0, Answers::Correctly), 4);
}

#[test]
fn a_zero_score_is_a_failure_whichever_reading_applies() {
    assert_eq!(scored_always(None, 0.0, Answers::Correctly), 0);
    assert_eq!(scored_always(None, -0.0, Answers::Correctly), 0);
}

#[test]
fn without_a_metric_every_attempt_that_ran_is_kept() {
    let settings =
        BootstrapFewShot { max_labeled_demos: 0, ..BootstrapFewShot::without_metric() };
    let compiled = compile(settings, solver(), Answers::Wrongly, Shape::Untraced);
    assert_eq!(compiled.kept, 4);
    assert_eq!(answers(&compiled.student.predictors[0].demos), ["no idea"; 4]);
}

#[test]
fn the_teacher_is_shown_labeled_demos_before_it_is_asked_to_solve_anything() {
    let settings = BootstrapFewShot { max_labeled_demos: 4, ..bootstrap() };
    let compiled = compile(settings, solver(), Answers::Correctly, Shape::Untraced);
    let first = compiled.calls.first().expect("the teacher ran");
    assert_eq!(first.demos[0].len(), 3);
}

#[test]
fn the_example_being_solved_is_withheld_from_the_teachers_own_demos() {
    let settings = BootstrapFewShot { max_labeled_demos: 16, ..bootstrap() };
    let compiled = compile(settings, solver(), Answers::Correctly, Shape::Untraced);
    for call in &compiled.calls {
        assert!(!call.demos[0].contains(&call.question), "shown {:?}", call.question);
        assert_eq!(call.demos[0].len(), trainset().len() - 1, "more than one was hidden");
    }
}

#[test]
fn the_withheld_demos_are_put_back_after_the_call() {
    let settings = BootstrapFewShot { max_labeled_demos: 16, ..bootstrap() };
    let compiled = compile(settings, solver(), Answers::Correctly, Shape::Untraced);
    assert_eq!(compiled.teacher.predictors[0].demos.len(), trainset().len());
}

#[test]
fn the_teacher_runs_and_the_student_keeps_the_result() {
    let mut student = Scripted::new(Answers::Wrongly);
    let mut teacher = Scripted::new(Answers::Correctly);
    let compiled = compile_run(
        bootstrap(),
        solver(),
        solver(),
        &trainset(),
        &mut teacher,
        Shape::Untraced,
        exact_match,
    )
    .expect("compile succeeds");
    assert_eq!(compiled.kept, 2);
    assert!(student.calls.is_empty(), "the student answered instead of the teacher");
    assert_eq!(teacher.calls.len(), trainset().len());
    assert_eq!(answers(&compiled.student.predictors[0].demos), SOLVABLE);
    assert!(compiled.teacher.predictors[0].demos.is_empty(), "the teacher took the result");
    let asked = student.run(&compiled.student, "capital of France?");
    assert_eq!(asked, Ok("no idea"), "the student would have earned nothing itself");
}

#[test]
fn the_answer_counts_the_examples_that_were_solved() {
    let compiled = compile(bootstrap(), program(&["ran", "idle"]), Answers::Correctly, Shape::Lopsided);
    assert_eq!(compiled.kept, 2, "though one of the predictors never ran");
    assert!(compiled.student.predictors[1].demos.is_empty());

    let settings = BootstrapFewShot::new();
    let mut walk = Walk::begin(settings, 1);
    walk.attempted(Attempted::Solved);
    let mut nobody = program(&[]);
    let kept = settings.train(&mut nobody, &Bootstrapped::empty(), &walk, &Vec::new());
    assert_eq!(kept, 1, "though there is no predictor to keep a demo");
}

#[test]
fn a_teacher_of_a_different_shape_is_refused() {
    let error = same_shape(&solver(), &pair()).expect_err("one cannot learn from two").message();
    assert!(error.contains("same number of predictors"));
    assert_eq!(
        error,
        "student and teacher must have the same number of predictors, got 1 and 2"
    );
    let error = same_shape(&solver(), &program(&["other"])).expect_err("differs").message();
    assert_eq!(
        error,
        "student and teacher must have the same program structure, got predictor \"self\" against \"other\""
    );
}

#[test]
fn a_teacher_with_a_different_signature_is_refused() {
    let mut teacher = solver();
    teacher.set_instruction(0, "Answer, but differently.");
    let error = same_shape(&solver(), &teacher).expect_err("the signatures differ").message();
    assert!(error.contains("same signatures"));
}

#[test]
fn the_labeled_pool_shrinks_as_each_predictor_is_filled() {
    let settings = BootstrapFewShot { max_labeled_demos: 3, ..bootstrap() };
    let compiled = compile(settings, pair(), Answers::Correctly, Shape::Pair);
    let first = &compiled.student.predictors[0].demos;
    let second = &compiled.student.predictors[1].demos;
    assert_eq!((first.len(), second.len()), (3, 3));
    assert_eq!(answers(&first[2..]), answers(&second[2..]));
}

#[test]
fn each_predictor_is_taught_by_its_own_calls() {
    let compiled = compile(bootstrap(), pair(), Answers::Correctly, Shape::Pair);
    let first = &compiled.student.predictors[0].demos;
    let second = &compiled.student.predictors[1].demos;
    assert_eq!((first.len(), second.len()), (2, 2));
    assert!(first.iter().all(|demo| demo.has("question") && !demo.has("answer")));
    assert!(second.iter().all(|demo| demo.has("draft") && !demo.has("question")));
    assert_eq!(answers(second), SOLVABLE);
}

#[test]
fn a_predictor_that_never_ran_is_taught_by_nothing() {
    let compiled =
        compile(bootstrap(), program(&["ran", "idle"]), Answers::Correctly, Shape::Lopsided);
    assert_eq!(answers(&compiled.student.predictors[0].demos), SOLVABLE);
    assert!(compiled.student.predictors[1].demos.is_empty());
}

#[test]
fn the_budget_counts_solved_examples_rather_than_demos() {
    let settings = BootstrapFewShot {
        max_bootstrapped_demos: 1,
        max_labeled_demos: 6,
        ..bootstrap()
    };
    let compiled = compile(settings, pair(), Answers::Correctly, Shape::Pair);
    let first = &compiled.student.predictors[0].demos;
    assert_eq!(first.len(), 6);
    assert!(answers(first).contains(&"Berlin".to_string()));
}

#[test]
fn an_empty_trainset_compiles_to_nothing() {
    let compiled = compile_with(
        bootstrap(),
        solver(),
        solver(),
        &Vec::new(),
        Answers::Correctly,
        Shape::Untraced,
        exact_match,
    )
    .expect("compile succeeds");
    assert_eq!(compiled.kept, 0);
    assert!(compiled.student.predictors[0].demos.is_empty());
}

#[test]
fn an_earned_demo_is_marked_first() {
    let inputs = Example::new()
        .with("question", Value::text("q?"))
        .with_inputs(vec!["question".to_string()]);
    let demo = augmented_turn(&inputs, &Example::new().with("answer", Value::text("a")));
    let names: Vec<&str> = demo.fields.iter().map(|(name, _)| name.as_str()).collect();
    assert_eq!(names, ["augmented", "question", "answer"]);
    assert!(demo.is_input("question"));
    assert!(!demo.is_input("answer"));
    assert!(!demo.is_input("augmented"));
}

#[test]
fn an_unparsed_step_earns_no_demo() {
    let inputs = Example::new().with("question", Value::text("q?"));
    let trace = vec![TraceStep {
        predictor: "self".to_string(),
        inputs: inputs.clone(),
        outputs: StepOutputs::Unparsed(FailedPrediction {
            completion_text: "???".to_string(),
            format_reward: None,
        }),
        signature: signature("Answer."),
    }];
    let prediction = Prediction::new(Example::new().with("answer", Value::text("a")), "raw");
    let solved: Solved = bootstrap()
        .attempt(&inputs, &prediction, &trace, double(1.0))
        .expect("the metric accepts it");
    assert!(solved.per_predictor.is_empty());
    assert_eq!(solved.program.text("answer"), "a");
}

#[test]
fn a_permutation_is_picked_in_its_order() {
    let picked = pick(&trainset(), &vec![1, 0, 5]);
    assert_eq!(answers(&picked), ["Berlin", "Paris", "riddle 3!"]);
}

#[test]
fn an_optimizer_that_never_scores_refuses_a_valset() {
    assert!(LabeledFewShot::new(2).refusal(true, false).expect("refused").contains("valset"));
    assert!(LabeledFewShot::new(2).refusal(false, true).expect("refused").contains("no teacher"));
    assert!(LabeledFewShot::new(2).refusal(false, false).is_none());
    assert!(BootstrapFewShot::new().refusal(true).expect("refused").contains("valset"));
    assert!(BootstrapFewShot::new().refusal(false).is_none());
}

#[test]
fn scoring_says_how_a_search_evaluates() {
    let evaluate = Evaluate { num_threads: 7, max_errors: 3 };
    let untold = Scoring::default().apply(evaluate);
    assert_eq!((untold.num_threads, untold.max_errors), (7, 10));
    let told = Scoring { num_threads: Some(2), max_errors: 5 }.apply(untold);
    assert_eq!((told.num_threads, told.max_errors), (2, 5));
}
