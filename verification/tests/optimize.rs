//! The searches over whole programs: random, coordinate ascent, tree-structured, rules, ensembles.

use dsrust::double::Double;
use dsrust::example::{Example, Prediction, Value};
use dsrust::module::state::ProgramState;
use dsrust::optimize::bootstrap::{Attempted, Walk};
use dsrust::optimize::copro::candidates::{
    best_program, originals, proposal_of, stripped, Evaluated, Evaluations, Proposal,
};
use dsrust::optimize::copro::stats::{CoproStats, DepthScores};
use dsrust::optimize::copro::{Ascent, Stage, COPRO};
use dsrust::optimize::earned::Bootstrapped;
use dsrust::optimize::ensemble::{listed, Ensemble};
use dsrust::optimize::infer_rules::{
    examples_text, induced_rules, induction_sampling, split_trainset, train_size, with_rules,
    InferRules, RuleSearch,
};
use dsrust::optimize::mipro::dataset_summary::{
    dataset_descriptor, dataset_descriptor_with_prior_observations, examples_repr,
    observation_summarizer, summary_sampling, DatasetSummary, PrintedField, Reading, MAX_CALLS,
    MAX_SKIPS,
};
use dsrust::optimize::mipro::demos::{Budget, DemoSets, Strategy};
use dsrust::optimize::optuna::{BootstrapFewShotWithOptuna, OptunaSearch};
use dsrust::optimize::random_search::{
    winner, Attempt, BootstrapRandomSearch, RandomSearch, Recipe,
};
use dsrust::optimize::ranking::{ranking, By};
use dsrust::optimize::scoring::Scoring;
use dsrust::program::{NamedPredictor, Program, Sampling};
use dsrust::signature::{input, output, Signature};

fn double(value: f64) -> Double {
    Double::from_bits(value.to_bits())
}

fn number(value: Double) -> f64 {
    f64::from_bits(value.bits)
}

fn signature() -> Signature {
    Signature {
        instructions: "Answer.".to_string(),
        inputs: vec![input("question", "")],
        outputs: vec![output("answer", "")],
    }
}

fn program(names: &[&str]) -> Program {
    Program {
        predictors: names
            .iter()
            .map(|name| NamedPredictor {
                name: name.to_string(),
                signature: signature(),
                demos: Vec::new(),
                config: Sampling::default(),
                hint: None,
                lm: None,
            })
            .collect(),
    }
}

fn turn(question: &str, answer: &str) -> Example {
    Example::new().with("question", Value::text(question)).with("answer", Value::text(answer))
}

fn rows(count: usize) -> Vec<Example> {
    (0..count).map(|at| turn(&format!("q{at}"), &format!("a{at}"))).collect()
}

fn questions(rows: &[Example]) -> Vec<String> {
    rows.iter().map(|row| row.text("question")).collect()
}

// The ranking every search reads.

#[test]
fn a_ranking_is_decreasing_and_stable() {
    let scores: Vec<Double> = [0.5, 0.9, 0.5, 1.0].iter().map(|score| double(*score)).collect();
    assert_eq!(ranking(By::Number, &scores), [3, 1, 0, 2]);
    assert_eq!(ranking(By::Total, &scores), [3, 1, 0, 2]);
    assert!(ranking(By::Number, &Vec::new()).is_empty());
    let zeros = vec![double(-0.0), double(0.0)];
    assert_eq!(ranking(By::Number, &zeros), [0, 1], "equal as numbers");
    assert_eq!(ranking(By::Total, &zeros), [1, 0], "apart in the total order");
}

// Random search.

fn attempt(seed: i64, score: f64) -> Attempt {
    Attempt { seed, score: double(score), state: ProgramState::new(Vec::new()) }
}

#[test]
fn the_winner_is_the_first_to_beat_every_earlier_attempt() {
    assert!(winner(&Vec::new()).is_none());
    let tie = vec![attempt(-3, 1.0), attempt(-2, 1.0)];
    assert_eq!(winner(&tie).map(|(at, _)| at), Some(0), "a tie keeps the earlier");
    let later_better = vec![attempt(-3, 0.5), attempt(-2, 0.9), attempt(-1, 0.9)];
    assert_eq!(winner(&later_better).map(|(at, _)| at), Some(1));
    let earlier_better = vec![attempt(-3, 0.9), attempt(-2, 0.5)];
    assert_eq!(winner(&earlier_better).map(|(at, _)| at), Some(0));
}

#[test]
fn the_seeds_are_three_baselines_then_the_candidates() {
    let search = BootstrapRandomSearch::new();
    assert_eq!(search.seeds()[..4], [-3, -2, -1, 0]);
    assert_eq!(search.seeds().len(), 19, "16 candidates plus 3 baselines");
    assert_eq!(search.num_candidate_programs(2).seeds(), [-3, -2, -1, 0, 1]);
}

#[test]
fn the_attempts_are_the_ones_a_restriction_leaves() {
    let search = BootstrapRandomSearch::new().num_candidate_programs(2).restrict(vec![1, 99, -3]);
    assert_eq!(search.seeds(), [-3, 1]);
}

#[test]
fn restricting_does_not_move_what_the_remaining_seeds_draw() {
    let trainset = rows(8);
    let permutation = vec![7, 0, 6, 1, 5, 2, 4, 3];
    let whole = BootstrapRandomSearch::new().num_candidate_programs(5);
    let narrowed =
        BootstrapRandomSearch::new().num_candidate_programs(5).restrict(vec![3]);
    let (ours, all) = whole.shuffled(&trainset, &permutation, 2);
    let (theirs, some) = narrowed.shuffled(&trainset, &permutation, 2);
    assert_eq!(questions(&ours), questions(&theirs));
    assert_eq!(questions(&ours)[..2], ["q7", "q0"]);
    assert_eq!(all.max_bootstrapped_demos, 2);
    assert_eq!(some.max_bootstrapped_demos, 2);
}

#[test]
fn a_restrict_matching_no_seed_is_refused_rather_than_answered_with_nothing() {
    let settings = BootstrapRandomSearch::new().num_candidate_programs(2).restrict(vec![99]);
    let why = RandomSearch::begin(settings, &program(&["self"]))
        .err()
        .expect("no seed to attempt is an error")
        .message();
    assert!(why.contains("restrict"), "the message names the knob: {why}");
    assert!(why.contains("-3..2"), "and the range it had to fall in: {why}");
    assert_eq!(
        why,
        "`restrict` [99] does not match any candidate seed in -3..2; no candidate programs would be evaluated."
    );
}

#[test]
fn each_special_seed_has_its_own_recipe() {
    let search = BootstrapRandomSearch::new()
        .max_bootstrapped_demos(1)
        .max_labeled_demos(2)
        .max_rounds(3)
        .metric_threshold(double(0.5))
        .labeled_sample(false);
    assert!(matches!(search.recipe(-3), Recipe::ZeroShot));
    match search.recipe(-2) {
        Recipe::Labeled { optimizer } => {
            assert_eq!((optimizer.k, optimizer.sample), (2, false));
        }
        _ => panic!("labels only"),
    }
    match search.recipe(-1) {
        Recipe::Bootstrap { optimizer } => {
            assert_eq!(optimizer.max_bootstrapped_demos, 1);
            assert_eq!(optimizer.max_labeled_demos, 2);
            assert_eq!(optimizer.max_rounds, 3);
            assert_eq!(optimizer.metric_threshold.map(number), Some(0.5));
        }
        _ => panic!("the unshuffled bootstrap"),
    }
    assert!(matches!(search.recipe(0), Recipe::Shuffled));
}

#[test]
fn each_special_seed_leaves_its_own_shape() {
    let taught = || {
        let mut student = program(&["self", "other"]);
        student.set_demos(0, rows(3));
        student.set_demos(1, rows(2));
        student
    };
    let mut student = taught();
    let settings = BootstrapRandomSearch::new().restrict(vec![-3]);
    let mut search = RandomSearch::begin(settings, &student).ok().expect("begins");
    assert_eq!(search.next(), Some(-3));
    assert!(matches!(search.settings.recipe(-3), Recipe::ZeroShot));
    search.zero_shot(&mut student).ok().expect("the program fits itself");
    assert!(student.predictors.iter().all(|predictor| predictor.demos.is_empty()));
    search.scored(&student, double(1.0));
    assert!(search.next().is_none());
    search.finish(&mut student).ok().expect("finishes");
    assert!(
        student.predictors.iter().all(|predictor| predictor.demos.is_empty()),
        "zero-shot leaves no demos"
    );
    assert_eq!(search.attempts.len(), 1);
    for name in ["self", "other"] {
        let saved = search.attempts[0].state.get(name).expect("an entry");
        assert!(saved.demos.is_empty(), "zero-shot saves no demos");
    }

    let mut student = taught();
    let settings = BootstrapRandomSearch::new()
        .restrict(vec![-2])
        .max_labeled_demos(2)
        .labeled_sample(false);
    let search = RandomSearch::begin(settings, &student).ok().expect("begins");
    search.reset(&mut student).ok().expect("the program fits itself");
    match search.settings.recipe(-2) {
        Recipe::Labeled { optimizer } => {
            optimizer.compile(&mut student, &rows(5), &vec![Vec::new(), Vec::new()]);
        }
        _ => panic!("labels only"),
    }
    assert_eq!(
        questions(&student.predictors[0].demos),
        ["q0", "q1"],
        "without a draw the first ones are taken in order"
    );

    let settings = BootstrapRandomSearch::new()
        .restrict(vec![-1])
        .max_bootstrapped_demos(1)
        .max_labeled_demos(0);
    match settings.recipe(-1) {
        Recipe::Bootstrap { optimizer } => {
            let trainset = vec![turn("q0", "a0").with_inputs(vec!["question".to_string()])];
            let mut student = program(&["self"]);
            let mut walk = Walk::begin(optimizer, 1);
            let mut earned = Bootstrapped::empty();
            let inputs = trainset[0].inputs().expect("declared");
            let answer = Prediction::new(trainset[0].clone(), "raw");
            let solved = optimizer
                .attempt(&inputs, &answer, &Vec::new(), double(1.0))
                .expect("accepted");
            earned.file(&solved, &Vec::new());
            walk.attempted(Attempted::Solved);
            assert_eq!(optimizer.train(&mut student, &earned, &walk, &vec![Vec::new()]), 1);
            assert!(student.predictors[0].demos[0].has("augmented"), "an earned demo is marked");
        }
        _ => panic!("the unshuffled bootstrap"),
    }
}

fn attempts_made(bar: f64) -> usize {
    let settings =
        BootstrapRandomSearch::new().restrict(vec![-3, -2]).stop_at_score(double(bar));
    let mut student = program(&["self"]);
    let mut search = RandomSearch::begin(settings, &student).ok().expect("begins");
    let mut made = 0;
    while search.next().is_some() {
        search.reset(&mut student).ok().expect("the program fits itself");
        search.scored(&student, double(1.0));
        made += 1;
    }
    made
}

#[test]
fn stop_at_score_stops_exactly_when_the_bar_is_met() {
    assert_eq!(attempts_made(0.5), 1, "one attempt scored, then the bar ended it");
    assert_eq!(attempts_made(2.0), 2, "an unreachable bar stops nothing");
}

#[test]
fn a_search_hands_back_the_winning_program() {
    let mut student = program(&["self"]);
    let settings = BootstrapRandomSearch::new()
        .num_candidate_programs(1)
        .scoring(Scoring::default());
    let mut search = RandomSearch::begin(settings, &student).ok().expect("begins");
    for (demos, score) in [(0, 0.2), (1, 0.8), (2, 0.8), (3, 0.5)] {
        assert!(search.next().is_some());
        search.reset(&mut student).ok().expect("resets");
        assert!(student.predictors[0].demos.is_empty(), "each attempt starts from the beginning");
        student.set_demos(0, rows(demos));
        search.scored(&student, double(score));
    }
    assert!(search.next().is_none());
    search.finish(&mut student).ok().expect("finishes");
    assert_eq!(student.predictors[0].demos.len(), 1, "the first to reach 0.8");
    let ranked: Vec<i64> = search.ranked().iter().map(|attempt| attempt.seed).collect();
    assert_eq!(ranked, [-2, -1, 0, -3]);
}

// COPRO.

fn evaluated(instruction: &str, score: f64) -> Evaluated {
    Evaluated {
        instruction: instruction.to_string(),
        prefix: String::new(),
        score: double(score),
        program: Vec::new(),
    }
}

#[test]
fn a_repeat_keeps_the_higher_score_only() {
    let mut seen = Evaluations::default();
    seen.record(evaluated("answer well", 0.4));
    seen.record(evaluated("answer well", 0.7));
    assert_eq!(number(seen.best().score), 0.7, "the better run replaced the worse");
    seen.record(evaluated("answer well", 0.5));
    assert_eq!(number(seen.best().score), 0.7, "the worse run replaced nothing");
    assert_eq!(seen.scores().len(), 1);
}

#[test]
fn best_takes_the_earliest_of_a_tie() {
    let mut seen = Evaluations::default();
    seen.record(evaluated("first", 0.9));
    seen.record(evaluated("second", 0.9));
    assert_eq!(seen.best().instruction, "first");
    seen.record(evaluated("third", 1.0));
    assert_eq!(seen.best().instruction, "third");
}

#[test]
fn the_attempts_are_shown_worst_first() {
    let mut seen = Evaluations::default();
    seen.record(evaluated("low", 10.0));
    seen.record(evaluated("high", 90.0));
    seen.record(evaluated("middle", 50.0));
    let texts = vec!["10.0".to_string(), "90.0".to_string(), "50.0".to_string()];
    assert_eq!(
        seen.attempts(2, &texts),
        [
            "Instruction #1: middle",
            "Prefix #1: ",
            "Resulting Score #1: 50.0",
            "Instruction #2: high",
            "Prefix #2: ",
            "Resulting Score #2: 90.0",
        ]
    );
}

#[test]
fn the_closing_pick_is_the_best_program_of_all() {
    assert!(best_program(&Vec::new()).is_none());
    let mut first = Evaluations::default();
    first.record(Evaluated { program: vec!["one".to_string()], ..evaluated("a", 0.5) });
    let mut second = Evaluations::default();
    second.record(Evaluated { program: vec!["two".to_string()], ..evaluated("b", 0.7) });
    second.record(Evaluated { program: vec!["three".to_string()], ..evaluated("c", 0.7) });
    assert_eq!(best_program(&vec![first, second]), Some(vec!["two".to_string()]));
}

#[test]
fn a_depth_with_no_scores_records_nothing() {
    assert!(DepthScores::of(0, Vec::new()).is_none());
    let kept = DepthScores::of(2, vec![double(0.5)]).expect("one score");
    assert_eq!((kept.depth, kept.scores.len()), (2, 1));
    assert_eq!((number(kept.min()), number(kept.max())), (0.5, 0.5));
}

#[test]
fn a_rounds_extremes_pass_over_what_is_no_number() {
    let round = |scores: &[f64]| {
        DepthScores::of(0, scores.iter().map(|score| double(*score)).collect()).expect("scores")
    };
    let mixed = round(&[0.25, f64::NAN, -1.5, 0.75, -0.0]);
    assert_eq!((number(mixed.min()), number(mixed.max())), (-1.5, 0.75));
    let two = round(&[0.0, 1.0]);
    assert_eq!((number(two.min()), number(two.max())), (0.0, 1.0));
    let none = round(&[f64::NAN]);
    assert_eq!((number(none.min()), number(none.max())), (f64::INFINITY, f64::NEG_INFINITY));
}

#[test]
fn the_best_ten_are_the_highest_ten() {
    let scores: Vec<Double> = (0..15).map(|at| double(at as f64 / 10.0)).collect();
    let top = CoproStats::top_ten(&scores);
    assert_eq!(top.len(), 10);
    assert_eq!(number(top[0]), 1.4);
    assert_eq!(number(top[9]), 0.5);
}

#[test]
fn a_proposal_is_read_and_stripped() {
    assert_eq!(stripped("\" Answer. \""), "Answer.");
    assert_eq!(stripped("\"Answer.\"  "), "Answer.\"", "the quotes go before the spaces");
    let reply = Prediction::new(
        Example::new().with("proposed_instruction", Value::text("Do it.")),
        "raw",
    );
    let proposal = proposal_of(&reply);
    assert_eq!((proposal.instruction.as_str(), proposal.prefix.as_str()), ("Do it.", ""));
    let kept = originals(&program(&["self"]));
    assert_eq!(kept[0].instruction, "Answer.");
    assert_eq!(kept[0].prefix, "Answer:");
}

fn proposal(instruction: &str) -> Proposal {
    Proposal { instruction: instruction.to_string(), prefix: "Answer:".to_string() }
}

#[test]
fn coordinate_ascent_keeps_the_instruction_that_scores() {
    let mut student = program(&["self"]);
    let settings = COPRO::new().breadth(2).depth(2);
    let mut ascent = Ascent::begin(settings, &student).ok().expect("wide enough");
    let mut asked = 0;
    loop {
        if let Some((instruction, count)) = ascent.seed_request() {
            assert_eq!((instruction.as_str(), count), ("Answer.", 1));
            ascent.seeded(vec![proposal("Answer with GOOD precision.")]);
        } else if ascent.install(&mut student) {
            let good = student.predictors[0].signature.instructions.contains("GOOD");
            ascent.scored(double(if good { 100.0 } else { 0.0 }));
            asked += 1;
        } else {
            match ascent.stage {
                Stage::Scoring { .. } => ascent.settle(&mut student),
                Stage::Proposing { predictor, .. } => {
                    let texts: Vec<String> = ascent.evaluated[predictor]
                        .scores()
                        .iter()
                        .map(|score| format!("{:?}", number(*score)))
                        .collect();
                    let (attempts, count) =
                        ascent.attempts_request(&texts).expect("it is proposing");
                    assert_eq!(count, 2);
                    assert_eq!(attempts[0], "Instruction #1: Answer.");
                    assert_eq!(attempts[5], "Resulting Score #2: 100.0");
                    ascent.proposed(vec![proposal("Worse."), proposal("Worst.")]);
                }
                _ => break,
            }
        }
    }
    let stats = ascent.finish(&mut student);
    assert_eq!(student.predictors[0].signature.instructions, "Answer with GOOD precision.");
    assert_eq!(asked, 4, "two candidates a round");
    assert_eq!(stats.total_calls, 4);
    assert_eq!(stats.best[0].len(), 2);
    assert_eq!(stats.latest[0].len(), 2);
}

#[test]
fn a_breadth_of_one_is_refused() {
    let why = Ascent::begin(COPRO::new().breadth(1), &program(&["self"]))
        .err()
        .expect("too narrow")
        .message();
    assert_eq!(why, "COPRO breadth must be greater than 1");
}

#[test]
fn proposals_are_drawn_at_init_temperature() {
    let sampling = COPRO::new().init_temperature(double(0.7)).sampling(4);
    assert_eq!(sampling.temperature.map(number), Some(0.7));
    assert_eq!(sampling.completions, Some(4));
    assert_eq!(COPRO::new().sampling(9).temperature.map(number), Some(1.4));
}

#[test]
fn a_teacher_is_refused_since_copro_has_none() {
    assert!(COPRO::new().refusal(false, true).expect("refused").contains("no teacher"));
    assert!(COPRO::new().refusal(true, false).expect("refused").contains("valset"));
    assert!(COPRO::new().refusal(false, false).is_none());
}

// The search over which demo each predictor keeps.

#[test]
fn every_trial_keeps_one_demo_and_the_best_trial_stands() {
    let mut student = program(&["self"]);
    let start = student.dump_state();
    student.set_demos(0, rows(3));
    let settings = BootstrapFewShotWithOptuna::new().num_candidate_programs(2).seed(1);
    let mut search = OptunaSearch::begin(settings, start, &student).ok().expect("demos earned");
    assert_eq!(search.ranges(), [3]);
    for (index, score) in [(2, 0.9), (0, 0.4)] {
        assert!(search.goes_on());
        search.prepare(&mut student, &vec![index]).ok().expect("fits");
        assert_eq!(questions(&student.predictors[0].demos), [format!("q{index}")]);
        search.scored(&student, vec![index], double(score));
    }
    assert!(!search.goes_on());
    let trials = search.finish(&mut student).ok().expect("fits");
    assert_eq!(trials.len(), 2);
    assert_eq!(questions(&student.predictors[0].demos), ["q2"]);
}

#[test]
fn a_trial_has_the_instructions_of_the_program_before_the_bootstrap() {
    let mut student = program(&["self"]);
    let start = student.dump_state();
    student.set_demos(0, rows(2));
    student.set_instruction(0, "Rewritten.");
    let settings = BootstrapFewShotWithOptuna::new().num_candidate_programs(1);
    let mut search = OptunaSearch::begin(settings, start, &student).ok().expect("demos earned");
    search.prepare(&mut student, &vec![1]).ok().expect("fits");
    assert_eq!(student.predictors[0].signature.instructions, "Answer.");
    search.scored(&student, vec![1], double(0.5));
    student.set_instruction(0, "Rewritten again.");
    search.finish(&mut student).ok().expect("fits");
    assert_eq!(student.predictors[0].signature.instructions, "Answer.");
    assert_eq!(questions(&student.predictors[0].demos), ["q1"]);
}

#[test]
fn a_predictor_that_earned_nothing_cannot_be_searched() {
    let student = program(&["self"]);
    let why = OptunaSearch::begin(BootstrapFewShotWithOptuna::new(), student.dump_state(), &student)
        .err()
        .expect("nothing earned")
        .message();
    assert!(why.starts_with("predictor \"self\" earned no demos"), "{why}");
}

#[test]
fn the_bootstrap_of_a_trial_search_keeps_its_limits() {
    let bootstrap = BootstrapFewShotWithOptuna::new()
        .max_labeled_demos(5)
        .max_rounds(2)
        .scoring(Scoring::default())
        .bootstrap(3);
    assert_eq!(bootstrap.max_bootstrapped_demos, 3);
    assert_eq!(bootstrap.max_labeled_demos, 5);
    assert_eq!(bootstrap.max_rounds, 2);
}

// Rules induced from examples.

#[test]
fn the_rules_are_appended_under_dspys_own_sentence() {
    assert_eq!(
        with_rules("Answer.", "1. Be brief.\n2. Be exact."),
        "Answer.\n\nPlease adhere to the following rules when making your prediction:\n1. Be brief.\n2. Be exact."
    );
    let signature = InferRules::new().num_rules(3).induction_signature();
    assert_eq!(
        signature.instructions,
        "Given a set of examples, extract a list of 3 concise and non-redundant natural language rules that provide clear guidance for performing the task. All rules should be actionable for a well-specified scope of examples of this general kind of task."
    );
    assert_eq!(signature.inputs[0].name, "examples_text");
    assert_eq!(signature.outputs[0].name, "natural_language_rules");
}

#[test]
fn an_odd_trainset_keeps_the_larger_half_for_scoring() {
    for (length, expected) in [(0, 0), (1, 0), (2, 1), (3, 1), (7, 3), (10, 5)] {
        assert_eq!(train_size(length), expected, "the training half of {length}");
    }
    let (train, val) = split_trainset(&rows(5), None);
    assert_eq!((train.len(), val.len()), (2, 3));
    let given = rows(1);
    let (train, val) = split_trainset(&rows(5), Some(&given));
    assert_eq!((train.len(), val.len()), (5, 1));
}

#[test]
fn the_examples_are_rendered_with_their_fields_apart() {
    let printed = |fields: &[(&str, &str)]| -> Vec<(String, String)> {
        fields.iter().map(|(name, value)| (name.to_string(), value.to_string())).collect()
    };
    let shown = examples_text(
        &vec![
            printed(&[("answer", "Paris"), ("question", "France?"), ("other", "x")]),
            printed(&[("question", "Spain?")]),
        ],
        &signature(),
    );
    assert_eq!(
        shown,
        "Input Fields:\nquestion: France?\n\n=========\nOutput Fields:\nanswer: Paris\n\n\
         Input Fields:\nquestion: Spain?\n\n=========\nOutput Fields:\n\n\n"
    );
}

#[test]
fn rules_do_not_pile_up_from_candidate_to_candidate() {
    let mut student = program(&["self"]);
    let settings = InferRules::new().num_candidates(2);
    let mut search = RuleSearch::begin(settings, &student).ok().expect("there is a predictor");
    for (rules, score) in [("1. First.", 0.3), ("1. Second.", 0.8)] {
        search.start_candidate(&mut student).ok().expect("fits");
        search.induced(&mut student, rules.to_string());
        assert_eq!(student.predictors[0].signature.instructions, with_rules("Answer.", rules));
        search.scored(&student, double(score));
    }
    let candidates = search.finish(&mut student).ok().expect("fits");
    assert_eq!(candidates.len(), 2);
    assert_eq!(candidates[1].rules, ["1. Second."]);
    assert_eq!(
        student.predictors[0].signature.instructions,
        with_rules("Answer.", "1. Second.")
    );
}

#[test]
fn a_rule_candidate_keeps_the_bootstrapped_demos() {
    let mut student = program(&["first", "second"]);
    student.set_demos(0, rows(2));
    student.set_demos(1, rows(1));
    let settings = InferRules::new().num_candidates(1);
    let mut search = RuleSearch::begin(settings, &student).ok().expect("there are predictors");
    student.clear_demos();
    search.start_candidate(&mut student).ok().expect("fits");
    search.induced(&mut student, "1. First.".to_string());
    search.induced(&mut student, "1. Second.".to_string());
    search.scored(&student, double(0.5));
    student.clear_demos();
    search.finish(&mut student).ok().expect("fits");
    assert_eq!(questions(&student.predictors[0].demos), ["q0", "q1"]);
    assert_eq!(questions(&student.predictors[1].demos), ["q0"]);
    assert_eq!(
        student.predictors[1].signature.instructions,
        with_rules("Answer.", "1. Second.")
    );
}

#[test]
fn a_program_without_predictors_cannot_be_given_rules() {
    let why = RuleSearch::begin(InferRules::new(), &program(&[])).err().expect("refused").message();
    assert_eq!(why, "a program with no predictors has no instructions to add rules to");
}

#[test]
fn the_rules_of_a_reply_are_trimmed() {
    let reply = Prediction::new(
        Example::new().with("natural_language_rules", Value::text("  1. Be brief.\n")),
        "raw",
    );
    assert_eq!(induced_rules(&reply), "1. Be brief.");
    let sampling = induction_sampling(12);
    assert_eq!(sampling.rollout_id, Some(12));
    let bootstrap = InferRules::new()
        .max_bootstrapped_demos(2)
        .max_labeled_demos(3)
        .scoring(Scoring::default())
        .bootstrap();
    assert_eq!((bootstrap.max_bootstrapped_demos, bootstrap.max_labeled_demos), (2, 3));
}

// Ensembles.

#[test]
fn the_ensemble_reports_its_members_and_walks_all_of_them() {
    let ensembled = Ensemble::new().compile(vec![program(&["self"]), program(&["self"])]);
    assert_eq!(ensembled.len(), 2);
    assert!(!ensembled.is_empty());
    let names: Vec<String> =
        ensembled.named_predictors().iter().map(|predictor| predictor.name.clone()).collect();
    assert_eq!(names.len(), 2, "every member is walked: {names:?}");
    assert!(names[0].starts_with("programs[0]."), "{names:?}");
    assert!(names[1].starts_with("programs[1]."), "{names:?}");

    let empty = Ensemble::new().compile(Vec::new());
    assert_eq!(empty.len(), 0);
    assert!(empty.is_empty());
}

#[test]
fn a_sized_ensemble_asks_exactly_that_many_distinct_members() {
    let members = || vec![program(&["self"]), program(&["self"]), program(&["self"])];
    let everyone = Ensemble::new().compile(members());
    assert_eq!(everyone.draw(), None);
    assert_eq!(everyone.asked(&Vec::new()), [0, 1, 2], "no size asks everyone");
    let sampled = Ensemble::new().size(2).seed(0).compile(members());
    assert_eq!(sampled.draw(), Some((3, 2)));
    assert_eq!(sampled.asked(&vec![2, 0]), [2, 0], "a size asks that many");
}

#[test]
fn unreduced_answers_travel_as_a_list() {
    let answers = vec![
        Prediction::new(Example::new().with("answer", Value::text("Paris")), "raw"),
        Prediction::new(Example::new().with("answer", Value::text("Lyon")), "raw"),
    ];
    let all = listed(&answers, "[{'answer': 'Paris'}, {'answer': 'Lyon'}]");
    match all.example.get("outputs") {
        Some(Value::Other { json, repr }) => {
            assert_eq!(json, "[{\"answer\":\"Paris\"},{\"answer\":\"Lyon\"}]");
            assert_eq!(repr, "[{'answer': 'Paris'}, {'answer': 'Lyon'}]");
        }
        _ => panic!("the list is a value of its own"),
    }
    assert_eq!(all.completion, "");
}

// Demo sets.

fn budget() -> Budget {
    Budget {
        num_candidate_sets: 4,
        max_labeled: 2,
        max_bootstrapped: 4,
        metric_threshold: Some(double(0.75)),
    }
}

#[test]
fn the_builder_keeps_the_metric_threshold() {
    let built = budget().bootstrap(4);
    assert_eq!(built.metric_threshold.map(number), Some(0.75));
    assert_eq!(built.max_bootstrapped_demos, 4);
    assert_eq!(built.max_labeled_demos, 2);
}

#[test]
fn clear_demos_empties_every_predictor() {
    let mut student = program(&["first", "second"]);
    student.set_demos(0, vec![turn("q", "a")]);
    student.set_demos(1, vec![turn("q", "a")]);
    student.clear_demos();
    assert!(student.predictors.iter().all(|predictor| predictor.demos.is_empty()));
}

#[test]
fn the_sets_mix_their_strategies() {
    let mut student = program(&["self"]);
    let mut sets = DemoSets::begin(budget(), 1);
    let mut kinds = Vec::new();
    while let Some(strategy) = sets.next(&mut student) {
        assert!(student.predictors[0].demos.is_empty(), "every set starts from none");
        kinds.push(match strategy {
            Strategy::ZeroShot => "zero",
            Strategy::Labeled { .. } => "labeled",
            Strategy::Bootstrap { .. } => "bootstrap",
            Strategy::Shuffled => "shuffled",
        });
        if !matches!(strategy, Strategy::ZeroShot) {
            student.set_demos(0, rows(kinds.len()));
        }
        sets.take_set(&student);
    }
    assert_eq!(kinds, ["zero", "labeled", "bootstrap", "shuffled"]);
    let built = sets.finish(&mut student);
    let sizes: Vec<usize> = built[0].iter().map(|set| set.len()).collect();
    assert_eq!(sizes, [0, 2, 3, 4]);
    assert!(student.predictors[0].demos.is_empty());

    let unlabeled = Budget { max_labeled: 0, ..budget() };
    assert!(matches!(unlabeled.strategy(1), Strategy::Shuffled));
    let (shuffled, optimizer) = budget().shuffled(&rows(2), &vec![1, 0], 3);
    assert_eq!(questions(&shuffled), ["q1", "q0"]);
    assert_eq!(optimizer.max_bootstrapped_demos, 3);
}

// The summary of a trainset.

#[test]
fn the_walk_runs_hot_and_stops_at_max_calls() {
    let mut reading = DatasetSummary::begin(14, 1);
    assert_eq!(summary_sampling().temperature.map(number), Some(1.0));
    assert_eq!(reading.window(), Some((0, 1)));
    reading.opened("saw 0. ");
    let mut windows = Vec::new();
    while let Some(window) = reading.window() {
        windows.push(window);
        reading.answered(Some("saw more. "));
    }
    assert_eq!(windows.len(), MAX_CALLS - 1, "nine batches after the first");
    assert_eq!(windows.last(), Some(&(9, 10)), "the last asked batch is row 9");
    reading.summarized("Summary: Rows.");
    assert_eq!(reading.summary, "Rows.");
}

#[test]
fn five_complete_answers_end_the_reading() {
    let mut reading = DatasetSummary::begin(9, 1);
    reading.opened("opening. ");
    let mut asked = 0;
    while reading.window().is_some() {
        reading.answered(Some("COMPLETE"));
        asked += 1;
    }
    assert_eq!(asked, MAX_SKIPS, "nothing after the fifth");
    assert_eq!(reading.observations, "opening. ");
}

#[test]
fn the_walk_batches_the_trainset_and_folds_each_answer_in() {
    let mut reading = DatasetSummary::begin(3, 1);
    assert_eq!(reading.window(), Some((0, 1)));
    reading.opened("saw alpha. ");
    assert_eq!(reading.window(), Some((1, 2)));
    reading.answered(Some("saw beta. "));
    assert_eq!(reading.window(), Some((2, 3)));
    assert_eq!(reading.observations, "saw alpha. saw beta. ");
    reading.answered(Some("saw gamma. "));
    assert!(matches!(reading.stage, Reading::Summarizing));
    assert_eq!(reading.observations, "saw alpha. saw beta. saw gamma. ");
    reading.summarized("Three greek words.");
    assert_eq!(reading.summary, "Three greek words.");
    assert!(matches!(reading.stage, Reading::Done));
}

#[test]
fn a_complete_answer_is_skipped_rather_than_folded_in() {
    let mut reading = DatasetSummary::begin(2, 1);
    reading.opened("saw alpha. ");
    reading.answered(Some("complete, nothing new"));
    assert!(matches!(reading.stage, Reading::Summarizing));
    assert_eq!(reading.observations, "saw alpha. ");
}

#[test]
fn a_failed_batch_ends_the_reading_and_not_the_run() {
    let mut reading = DatasetSummary::begin(9, 2);
    reading.opened("saw some. ");
    reading.answered(None);
    assert!(matches!(reading.stage, Reading::Summarizing));
    assert_eq!(reading.observations, "saw some. ");
}

#[test]
fn the_three_signatures_render_as_dspys_do() {
    let first = dataset_descriptor();
    assert_eq!(first.inputs[0].name, "examples");
    assert_eq!(first.inputs[0].desc, "Sample data points from the dataset");
    assert_eq!(first.outputs[0].name, "observations");
    assert_eq!(
        first.outputs[0].desc,
        "Somethings that holds true for most or all of the data you observed"
    );
    let prior = dataset_descriptor_with_prior_observations();
    assert_eq!(
        prior.instructions,
        "Given several examples from a dataset please write observations about trends that hold for most or all of the samples. I will also provide you with a few observations I have already made.  Please add your own observations or if you feel the observations are comprehensive say 'COMPLETE' Some areas you may consider in your observations: topics, content, syntax, conciceness, etc. It will be useful to make an educated guess as to the nature of the task this dataset will enable. Don't be afraid to be creative"
    );
    assert_eq!(prior.inputs[1].name, "prior_observations");
    assert_eq!(prior.inputs[1].desc, "Some prior observations I made about the data");
    let summarizer = observation_summarizer();
    assert_eq!(
        summarizer.instructions,
        "Given a series of observations I have made about my dataset, please summarize them into a brief 2-3 sentence summary which highlights only the most important details."
    );
    assert_eq!(summarizer.outputs[0].name, "summary");
    assert_eq!(
        summarizer.outputs[0].desc,
        "Two to Three sentence summary of only the most significant highlights of my observations"
    );
}

#[test]
fn rows_print_as_source() {
    let printed = |name: &str, value: &str, is_input: bool| PrintedField {
        name: name.to_string(),
        name_literal: format!("'{name}'"),
        value_literal: format!("'{value}'"),
        is_input,
    };
    let shown = examples_repr(&vec![vec![
        printed("question", "q?", true),
        printed("answer", "a", false),
    ]]);
    assert_eq!(shown, "[Example({'question': 'q?', 'answer': 'a'}) (input_keys={'question'})]");
    let sorted = examples_repr(&vec![
        vec![printed("zeta", "z", true), printed("alpha", "a", true)],
        Vec::new(),
    ]);
    assert_eq!(
        sorted,
        "[Example({'zeta': 'z', 'alpha': 'a'}) (input_keys={'alpha', 'zeta'}), Example({}) (input_keys={})]"
    );
}
