//! Instruction proposals, minibatches and the search over them.

use dsrust::double::Double;
use dsrust::example::{Example, Value};
use dsrust::observe::evaluating::Pass;
use dsrust::optimize::mipro::grounded::{
    example_string, task_demos, tip, GroundedProposer, Proposing, DEMOS_IN_CONTEXT, TIP_COUNT,
};
use dsrust::optimize::mipro::minibatch::{
    adjusted_trials, batch, batch_draw, full_evaluation_due, subsample, Auto, Averages,
    MIN_MINIBATCH_SIZE,
};
use dsrust::optimize::mipro::proposer::{
    module_code, strip_prefix, without_label, GenerateModuleInstruction, InstructionInputs,
};
use dsrust::optimize::mipro::search::{Search, Stage};
use dsrust::optimize::mipro::settings::{trials_for, MIPROv2};
use dsrust::optimize::mipro::space::{apply, search_space, Slot};
use dsrust::optimize::scoring::Scoring;
use dsrust::program::{NamedPredictor, Program, Sampling};
use dsrust::signature::{input, output, Signature};

const NO_DEMOS: &str = "No task demos provided.";

fn double(value: f64) -> Double {
    Double::from_bits(value.to_bits())
}

fn signature() -> Signature {
    Signature {
        instructions: "Given the fields `question`, produce the fields `answer`.".to_string(),
        inputs: vec![input("question", "")],
        outputs: vec![output("answer", "")],
    }
}

fn turn(question: &str, answer: &str) -> Example {
    Example::new().with("question", Value::text(question)).with("answer", Value::text(answer))
}

fn earned(question: &str, answer: &str) -> Example {
    Example::new()
        .with("augmented", Value::yes())
        .with("question", Value::text(question))
        .with("answer", Value::text(answer))
}

fn numbered(at: usize) -> Example {
    Example::new()
        .with("question", Value::text(&at.to_string()))
        .with_inputs(vec!["question".to_string()])
}

fn asked(name: &str) -> Program {
    Program {
        predictors: vec![NamedPredictor {
            name: name.to_string(),
            signature: signature(),
            demos: Vec::new(),
            config: Sampling::default(),
            hint: None,
            lm: None,
        }],
    }
}

#[test]
fn the_proposers_tips_are_dspys() {
    let tips: Vec<&str> = (0..TIP_COUNT).map(tip).collect();
    assert_eq!(
        tips,
        [
            "",
            "Don't be afraid to be creative when creating the new instruction!",
            "Keep the instruction clear and concise.",
            "Make sure your instruction is very informative and descriptive.",
            "The instruction should include a high stakes scenario in which the LM must solve the task!",
            "Include a persona that is relevant to the task in the instruction (ie. \"You are a ...\")",
        ]
    );
}

#[test]
fn select_tip_never_answers_an_empty_tip() {
    let off = GroundedProposer {
        dataset_summary: None,
        program_code: None,
        tip_aware: false,
        init_temperature: double(0.5),
        fewshot_aware: false,
    };
    assert_eq!(off.select_tip(0), None, "no tip when off");
    let on = GroundedProposer { tip_aware: true, ..off };
    for drawn in 0..TIP_COUNT {
        if tip(drawn).is_empty() {
            assert_eq!(on.select_tip(drawn), None, "the empty none tip is no tip");
        } else {
            assert_eq!(on.select_tip(drawn), Some(tip(drawn)));
        }
    }
}

#[test]
fn the_baseline_candidate_is_shown_no_demos() {
    let sets = vec![vec![earned("a?", "a")], vec![earned("b?", "b")]];
    assert_eq!(task_demos(&signature(), &sets, 0), NO_DEMOS);
}

#[test]
fn a_candidate_reads_its_own_set_first_then_wraps() {
    let sets = vec![
        vec![earned("first?", "1")],
        vec![earned("second?", "2")],
        vec![earned("third?", "3")],
    ];
    let shown = task_demos(&signature(), &sets, 1);
    let order: Vec<&str> = shown.lines().filter(|line| line.starts_with("Question:")).collect();
    assert_eq!(order, ["Question: second?", "Question: third?", "Question: first?"]);
}

#[test]
fn a_labelled_demo_is_not_shown() {
    let sets = vec![vec![turn("plain?", "plain")], vec![turn("plain?", "plain")]];
    assert_eq!(task_demos(&signature(), &sets, 1), NO_DEMOS);
}

#[test]
fn at_most_three_demos_reach_a_proposal() {
    let sets = vec![
        vec![earned("a?", "a"), earned("b?", "b")],
        vec![earned("c?", "c"), earned("d?", "d")],
    ];
    let shown = task_demos(&signature(), &sets, 1);
    assert_eq!(shown.matches("Question:").count(), DEMOS_IN_CONTEXT);
}

#[test]
fn a_field_the_demo_lacks_prints_as_none() {
    let partial =
        Example::new().with("augmented", Value::yes()).with("question", Value::text("q?"));
    let shown = task_demos(&signature(), &vec![vec![], vec![partial]], 1);
    assert_eq!(shown, "Question: q?\nAnswer: None\n\n");
}

#[test]
fn a_demo_prints_a_line_per_field() {
    assert_eq!(example_string(&signature(), &turn("q?", "a")), "Question: q?\nAnswer: a");
}

#[test]
fn a_proposal_is_asked_at_init_temperature_with_a_rollout() {
    let proposer = GroundedProposer {
        dataset_summary: Some("capitals".to_string()),
        program_code: None,
        tip_aware: true,
        init_temperature: double(0.5),
        fewshot_aware: true,
    };
    let sets = Some(vec![vec![vec![earned("a?", "a")], vec![earned("b?", "b")]]]);
    let ask = proposer.ask(&signature(), &sets, 0, 1, 2, 41);
    assert_eq!(ask.sampling.temperature.map(|heat| heat.bits), Some(0.5f64.to_bits()));
    assert_eq!(ask.sampling.rollout_id, Some(41));
    assert_eq!(ask.tip.as_deref(), Some("Keep the instruction clear and concise."));
    assert!(ask.demos.starts_with("Question: b?"));
    assert_eq!(ask.summary, "capitals");
}

#[test]
fn every_predictor_is_proposed_its_own_instruction_first() {
    let mut proposing =
        Proposing::begin(vec!["one".to_string(), "two".to_string()], 2);
    let mut asks = Vec::new();
    while let Some(at) = proposing.next() {
        asks.push(at);
        proposing.answered(format!("new {}.{}", at.0, at.1));
    }
    assert_eq!(asks.len(), 4);
    assert_eq!(asks[0].0, 0);
    assert_eq!(asks[3].0, 1);
    assert_eq!(proposing.proposed.len(), 2);
    assert_eq!(proposing.proposed[0][0], "one");
    assert_eq!(proposing.proposed[1][0], "two");
}

#[test]
fn a_tie_goes_to_whichever_was_scored_first() {
    let mut averages = Averages::default();
    averages.record(&vec![1, 0], double(0.5));
    averages.record(&vec![0, 1], double(0.5));
    let at = averages.highest_average(&vec![double(0.5), double(0.5)]).expect("scored");
    assert_eq!(averages.scored[at].0, [1, 0]);
}

#[test]
fn the_pick_averages_every_batch_a_combination_scored() {
    let mut averages = Averages::default();
    averages.record(&vec![0], double(1.0));
    averages.record(&vec![0], double(0.0));
    averages.record(&vec![1], double(0.4));
    let means: Vec<Double> = averages
        .scored
        .iter()
        .map(|(_, scores)| {
            let sum: f64 = scores.iter().map(|score| f64::from_bits(score.bits)).sum();
            double(sum / scores.len() as f64)
        })
        .collect();
    let at = averages.highest_average(&means).expect("scored");
    assert_eq!(averages.scored[at].0, [0]);
    assert!((f64::from_bits(means[at].bits) - 0.5).abs() < f64::EPSILON);
}

#[test]
fn falling_through_lands_on_the_lowest_average() {
    let mut averages = Averages::default();
    averages.record(&vec![0], double(0.9));
    averages.record(&vec![1], double(0.1));
    averages.mark_evaluated(&vec![0]);
    averages.mark_evaluated(&vec![1]);
    let at = averages.highest_average(&vec![double(0.9), double(0.1)]).expect("scored");
    assert_eq!(averages.scored[at].0, [1]);
}

#[test]
fn nothing_scored_has_no_highest_average() {
    assert_eq!(Averages::default().highest_average(&Vec::new()), None);
}

#[test]
fn the_displayed_trial_count_overcounts_the_full_evaluations_that_fire() {
    let adjusted = adjusted_trials(10, 5);
    assert_eq!(adjusted, 13);
    let fired: Vec<usize> =
        (1..=10).filter(|trial| full_evaluation_due(*trial, adjusted, 5)).collect();
    assert_eq!(fired, [6]);
}

#[test]
fn a_preset_turns_minibatching_on_only_past_the_minimum() {
    let mipro = MIPROv2::new().auto(Auto::Light);
    let at_minimum: Vec<Example> = (0..MIN_MINIBATCH_SIZE).map(numbered).collect();
    let drawn: Vec<usize> = (0..MIN_MINIBATCH_SIZE).collect();
    let mode = mipro.run_mode(1, false, &at_minimum, &drawn);
    assert!(!mode.minibatch, "at the minimum is not past it");

    let past: Vec<Example> = (0..MIN_MINIBATCH_SIZE + 1).map(numbered).collect();
    let drawn: Vec<usize> = (0..MIN_MINIBATCH_SIZE + 1).collect();
    let mode = mipro.run_mode(1, false, &past, &drawn);
    assert!(mode.minibatch, "one past the minimum turns it on");
}

#[test]
fn datasets_refuses_what_dspy_refuses() {
    let mipro = MIPROv2::new();
    let one = vec![numbered(0)];
    let why = mipro.datasets(&one, None).err().expect("one example cannot split").message();
    assert_eq!(why, "Trainset must have at least 2 examples if no valset specified.");

    let two = vec![numbered(0), numbered(1)];
    assert!(mipro.datasets(&two, None).is_ok(), "two is the minimum");
    assert!(mipro.datasets(&one, Some(&two)).is_ok(), "a given valset lifts the minimum");
    let none: Vec<Example> = Vec::new();
    let why = mipro.datasets(&none, Some(&two)).err().expect("empty is refused").message();
    assert_eq!(why, "Trainset cannot be empty.");
    let why = mipro.datasets(&one, Some(&none)).err().expect("an empty valset is refused").message();
    assert_eq!(why, "Valset cannot be empty.");
}

#[test]
fn a_trainset_without_a_valset_is_split() {
    let rows: Vec<Example> = (0..10).map(numbered).collect();
    let (train, val) = MIPROv2::new().datasets(&rows, None).ok().expect("splits");
    assert_eq!((train.len(), val.len()), (2, 8));
    assert_eq!(train[0].text("question"), "0");
    assert_eq!(val[0].text("question"), "2");
}

#[test]
fn the_trials_follow_the_number_of_variables() {
    assert_eq!(trials_for(1, false, 6), 10);
    assert_eq!(trials_for(1, true, 6), 9);
    assert_eq!(trials_for(2, false, 12), 28);
}

#[test]
fn the_presets_are_the_stated_ones() {
    assert_eq!(Auto::Light.candidates(), 6);
    assert_eq!(Auto::Medium.candidates(), 12);
    assert_eq!(Auto::Heavy.candidates(), 18);
    assert_eq!(Auto::Light.val_size(), 100);
    assert_eq!(Auto::Medium.val_size(), 300);
    assert_eq!(Auto::Heavy.val_size(), 1000);
    assert_eq!(Auto::Light.instruction_candidates(true), 6);
    assert_eq!(Auto::Light.instruction_candidates(false), 3);
}

#[test]
fn a_batch_is_what_the_draw_names() {
    let rows: Vec<Example> = (0..4).map(numbered).collect();
    assert_eq!(batch_draw(4, 2), Some(2));
    let two = batch(&rows, 2, &vec![3, 1]);
    assert_eq!(two.len(), 2);
    assert_eq!(two[0].text("question"), "3");
    assert_eq!(two[1].text("question"), "1");
    let some = subsample(&rows, 3, &vec![2, 0, 1]);
    assert_eq!(some.len(), 3);
    assert_eq!(some[0].text("question"), "2");
}

#[test]
fn labels_spelled_with_underscores_and_apostrophes_still_strip() {
    assert_eq!(strip_prefix("my_label: keep this"), "keep this");
    assert_eq!(strip_prefix("Dave's Tip: keep this"), "keep this");
    assert_eq!(strip_prefix("well-known Advice: keep this"), "keep this");
}

#[test]
fn module_code_spells_the_predict_line() {
    let signature = Signature {
        instructions: "Given the fields `question`, `context`, produce the fields `answer`."
            .to_string(),
        inputs: vec![input("question", ""), input("context", "")],
        outputs: vec![output("answer", "")],
    };
    assert_eq!(module_code(&signature), "Predict(question, context) -> answer");
}

#[test]
fn strip_prefix_matches_dspy() {
    let cases = [
        ("Instruction: Answer the question.", "Answer the question."),
        ("Proposed Instruction: Do the thing.", "Do the thing."),
        ("\"Just quoted text\"", "Just quoted text"),
        ("No prefix here just text", "No prefix here just text"),
        ("**Bold Label:** content", "** content"),
        ("Task Description For The Model: solve it", "solve it"),
        ("One Two Three Four Five: kept?", "kept?"),
    ];
    for (input, expected) in cases {
        assert_eq!(strip_prefix(input), expected, "strip_prefix({input:?})");
    }
}

#[test]
fn a_label_of_six_words_is_no_label() {
    assert_eq!(
        without_label("One Two Three Four Five Six: kept"),
        "One Two Three Four Five Six: kept"
    );
}

#[test]
fn describe_hands_on_both_descriptions_or_the_fixed_strings() {
    let aware = GenerateModuleInstruction::new(
        Some("class Program: ...".to_string()),
        InstructionInputs {
            dataset_summary: false,
            program_aware: true,
            instruct_history: false,
            tip: false,
        },
    );
    assert!(aware.program_fields(NO_DEMOS).is_some());
    let (program, module) =
        aware.describe(Some(("Program Description: solves questions", "answers directly")));
    assert_eq!(program, "solves questions", "the label is stripped");
    assert_eq!(module, "answers directly");

    let unaware = GenerateModuleInstruction::new(
        None,
        InstructionInputs {
            dataset_summary: false,
            program_aware: false,
            instruct_history: false,
            tip: false,
        },
    );
    assert!(unaware.program_fields(NO_DEMOS).is_none(), "nothing is asked");
    let (program, module) = unaware.describe(None);
    assert_eq!(program, "Not available");
    assert_eq!(module, "Not provided");
}

#[test]
fn the_space_names_an_instruction_and_a_demo_set_per_predictor() {
    let candidates = vec![vec!["kept".to_string(), "GOOD".to_string()]];
    let sets = Some(vec![vec![Vec::new(), vec![turn("q?", "a")]]]);
    let space = search_space(&candidates, &sets);
    let names: Vec<&str> = space.iter().map(|(name, _)| name.as_str()).collect();
    assert_eq!(names, ["0_predictor_instruction", "0_predictor_demos"]);
    let slots: Vec<Slot> = space.iter().map(|(_, slot)| *slot).collect();
    assert_eq!(slots[0].cardinality(), 2);
    assert_eq!(slots[1].cardinality(), 2);

    let mut student = asked("self");
    apply(&mut student, &candidates, &sets, &slots, &vec![1, 1]);
    assert_eq!(student.predictors[0].signature.instructions, "GOOD");
    assert_eq!(student.predictors[0].demos.len(), 1);
}

#[test]
fn the_search_keeps_the_instruction_that_scores() {
    let mut search = Search::begin(false, 5, 2, 1).ok().expect("begins");
    assert!(matches!(search.stage, Stage::Default));
    search.default_scored(double(0.0));
    search.answered(&vec![1]);
    search.trial_scored(double(1.0));
    search.answered(&vec![0]);
    search.trial_scored(double(0.0));
    assert!(matches!(search.stage, Stage::Done));
    let best = search.best.expect("a trial ran");
    assert_eq!(best.params, [1]);
    assert_eq!(best.score.bits, 1.0f64.to_bits());
}

#[test]
fn a_minibatch_run_without_a_full_evaluation_ends_on_the_program_as_it_came() {
    let candidates = vec![vec!["kept".to_string(), "GOOD".to_string()]];
    let space: Vec<Slot> =
        search_space(&candidates, &None).iter().map(|(_, slot)| *slot).collect();
    let mut student = asked("self");
    let mut search = Search::begin(true, 5, 0, 1).ok().expect("begins");
    search.default_scored(double(0.25));
    assert!(matches!(search.stage, Stage::Done));
    assert_eq!(search.full.len(), 1);
    apply(&mut student, &candidates, &None, &space, &vec![1]);
    let trials = search.finish(&mut student, &candidates, &None, &space);
    assert_eq!(trials.len(), 1);
    assert_eq!(trials[0].params, [0]);
    assert_eq!(student.predictors[0].signature.instructions, "kept");
}

#[test]
fn a_minibatch_run_keeps_the_best_of_its_full_passes() {
    let candidates = vec![vec!["kept".to_string(), "FAIR".to_string(), "GOOD".to_string()]];
    let space: Vec<Slot> =
        search_space(&candidates, &None).iter().map(|(_, slot)| *slot).collect();
    let mut student = asked("self");
    let mut search = Search::begin(true, 2, 2, 1).ok().expect("begins");
    search.default_scored(double(0.5));
    search.answered(&vec![1]);
    search.trial_scored(double(0.75));
    assert!(matches!(search.stage, Stage::Asking), "trial two is not followed by a full pass");
    search.answered(&vec![2]);
    search.trial_scored(double(1.0));
    assert_eq!(search.best.as_ref().expect("scored").params, [0], "no full pass yet");
    assert!(matches!(search.stage, Stage::Averaging), "trial three is the last of the run");
    search.averaged(&vec![double(0.75), double(1.0)]);
    search.full_scored(double(0.625));
    assert!(matches!(search.stage, Stage::Done));
    assert_eq!(search.full.len(), 2);
    assert_eq!(search.full[1].params, [2]);
    let trials = search.finish(&mut student, &candidates, &None, &space);
    let reported: Vec<usize> = trials.iter().map(|trial| trial.params[0]).collect();
    assert_eq!(reported, [0, 1, 2, 2]);
    assert_eq!(student.predictors[0].signature.instructions, "GOOD");
}

#[test]
fn a_minibatch_search_without_an_interval_is_refused() {
    let refused = Search::begin(true, 0, 4, 1).err().expect("no interval").message();
    assert!(!refused.is_empty());
    assert!(Search::begin(true, 5, 4, 1).is_ok());
}

#[test]
fn a_teacher_is_refused() {
    assert!(MIPROv2::new().refusal(true).is_some());
    assert!(MIPROv2::new().refusal(false).is_none());
}

#[test]
fn the_builder_keeps_what_it_is_told() {
    let mipro = MIPROv2::new()
        .minibatch(false)
        .minibatch_size(7)
        .minibatch_full_eval_steps(3)
        .max_bootstrapped_demos(0)
        .max_labeled_demos(0)
        .num_candidates(5)
        .num_trials(9)
        .tip_aware_proposer(false)
        .init_temperature(double(0.25))
        .metric_threshold(double(0.75))
        .scoring(Scoring::default())
        .seed(4)
        .program_code("class Program: ...")
        .data_aware_proposer(false);
    assert!(mipro.zeroshot());
    assert_eq!(mipro.demo_budgets(), (0, 3));
    assert_eq!((mipro.num_candidates, mipro.num_trials, mipro.seed), (5, 9, 4));
    assert_eq!(mipro.metric_threshold.map(|bar| bar.bits), Some(0.75f64.to_bits()));
    assert_eq!(mipro.program_code.as_deref(), Some("class Program: ..."));
    assert!(!mipro.tip_aware);
    assert!(!mipro.data_aware_proposer);
    assert!(!MIPROv2::new().zeroshot());
}

#[test]
fn a_run_is_planned_from_its_datasets() {
    let rows: Vec<Example> = (0..200).map(numbered).collect();
    let mipro = MIPROv2::new().metric_threshold(double(0.5));
    assert!(matches!(mipro.open_run(&Program { predictors: Vec::new() }, &rows, None), Ok(None)));
    assert!(mipro.open_run(&asked("self"), &Vec::new(), None).is_err());
    let (train, val) =
        mipro.open_run(&asked("self"), &rows, None).ok().flatten().expect("there is a predictor");
    assert_eq!((train.len(), val.len()), (40, 160));

    assert_eq!(mipro.mode_draw(val.len()), Some(100));
    let drawn: Vec<usize> = (0..100).collect();
    let plan = mipro.plan(1, train, &val, &drawn);
    assert_eq!(plan.trainset.len(), 40);
    assert_eq!(plan.mode.valset.len(), 100);
    assert!(plan.mode.minibatch);
    assert_eq!(plan.budget.num_candidate_sets, 6);
    assert_eq!((plan.budget.max_labeled, plan.budget.max_bootstrapped), (4, 4));
    assert_eq!(plan.budget.metric_threshold.map(|bar| bar.bits), Some(0.5f64.to_bits()));
    assert_eq!(plan.summarize, Some(10));
    assert!(plan.offered(vec![vec![Vec::new()]]).is_some());
    assert_eq!(mipro.batch_size(&plan.mode), 35);
    assert_eq!(mipro.pass(35, &plan.mode), Pass::Minibatch);
    assert_eq!(mipro.pass(100, &plan.mode), Pass::Full);
}

#[test]
fn a_zeroshot_run_builds_its_sets_and_offers_none() {
    let rows: Vec<Example> = (0..4).map(numbered).collect();
    let mipro = MIPROv2::new()
        .max_bootstrapped_demos(0)
        .max_labeled_demos(0)
        .data_aware_proposer(false)
        .program_code("class Program: ...");
    let plan = mipro.plan(1, rows, &(0..4).map(numbered).collect(), &vec![3, 2, 1, 0]);
    assert_eq!((plan.budget.max_labeled, plan.budget.max_bootstrapped), (0, 3));
    assert!(plan.offered(vec![vec![Vec::new()]]).is_none());
    assert_eq!(plan.summarize, None);
    assert_eq!(plan.mode.valset[0].text("question"), "3");
    let proposer = mipro.proposer(None);
    assert_eq!(proposer.program_code.as_deref(), Some("class Program: ..."));
    assert!(proposer.dataset_summary.is_none());
    assert!(proposer.tip_aware && proposer.fewshot_aware);
}
