//! Rewriting each predictor's instruction by coordinate ascent: ask a model for instructions,
//! score each on the trainset, keep the best, then show the best back to the model and ask for
//! better ones.
use vstd::prelude::*;
use crate::double::{exceeds, is_nan, Double};
use crate::duplicate::{append, append_all, Duplicate};
use crate::optimize::ranking::{lemma_ranked, ranked, By};
use crate::optimize::scoring::{default_scoring, Scoring};
use crate::program::{PredictorModel, Program, Sampling};

pub mod candidates;
pub mod stats;

use candidates::{
    all_evaluated, attempts_block, bare, best_of, best_program, law_a_recorded_score_never_falls,
    law_the_search_ends_on_the_highest_score, originals, originals_of, recorded, scores_in,
    stripped, winning_program, Evaluated, EvaluatedModel, Evaluations, Proposal, ProposalModel,
};
use stats::{add_round, highest_ten, no_stats, with_round, CoproStats, StatsModel};

verus! {

/// The settings of a coordinate ascent over instructions.
#[derive(Clone, Copy, Debug, PartialEq, Eq, Structural)]
pub struct COPRO {
    /// How many instructions a round proposes.
    pub breadth: usize,
    /// How many rounds are run.
    pub depth: usize,
    /// How freely the proposing model samples.
    pub init_temperature: Double,
    pub scoring: Scoring,
}

/// Ten proposals a round, three rounds, temperature 1.4.
pub open spec fn default_copro() -> COPRO {
    COPRO {
        breadth: 10,
        depth: 3,
        init_temperature: Double { bits: 0x3ff6_6666_6666_6666 },
        scoring: default_scoring(),
    }
}

impl COPRO {
    /// Ten proposals a round, three rounds, temperature 1.4.
    pub fn new() -> (r: COPRO)
        ensures
            r == default_copro(),
    {
        COPRO {
            breadth: 10,
            depth: 3,
            init_temperature: Double::from_bits(0x3ff6_6666_6666_6666),
            scoring: Scoring::default(),
        }
    }

    /// How many instructions to propose each round.
    pub fn breadth(self, breadth: usize) -> (r: COPRO)
        ensures
            r == (COPRO { breadth, ..self }),
    {
        COPRO { breadth, ..self }
    }

    /// How many rounds to run.
    pub fn depth(self, depth: usize) -> (r: COPRO)
        ensures
            r == (COPRO { depth, ..self }),
    {
        COPRO { depth, ..self }
    }

    /// How freely the proposing model samples.
    pub fn init_temperature(self, init_temperature: Double) -> (r: COPRO)
        ensures
            r == (COPRO { init_temperature, ..self }),
    {
        COPRO { init_temperature, ..self }
    }

    /// How one call for `n` proposals is sampled.
    pub fn sampling(&self, n: u32) -> (r: Sampling)
        ensures
            r == (Sampling {
                temperature: Some(self.init_temperature),
                rollout_id: None,
                completions: Some(n),
            }),
    {
        Sampling {
            temperature: Some(self.init_temperature),
            completions: Some(n),
            ..Sampling::default()
        }
    }

    /// Why a compile is refused: it scores on the trainset, and has no teacher to learn from.
    pub fn refusal(&self, valset: bool, teacher: bool) -> (r: Option<String>)
        ensures
            r.deep_view() == if valset {
                Some("COPRO scores on the trainset, as upstream's compile does — it takes no valset"@)
            } else if teacher {
                Some("COPRO optimizes instructions from a metric and has no teacher to learn from"@)
            } else {
                None
            },
    {
        if valset {
            Some("COPRO scores on the trainset, as upstream's compile does — it takes no valset".to_owned())
        } else if teacher {
            Some(
                "COPRO optimizes instructions from a metric and has no teacher to learn from".to_owned(),
            )
        } else {
            None
        }
    }
}

/// A round that would leave nothing to choose between.
#[derive(Clone, Copy, Debug, PartialEq, Eq, Structural)]
pub struct TooNarrow;

impl TooNarrow {
    pub fn message(&self) -> (r: String)
        ensures
            r@ == "COPRO breadth must be greater than 1"@,
    {
        "COPRO breadth must be greater than 1".to_owned()
    }
}

/// Where an ascent stands.
#[derive(Clone, Copy, Debug, PartialEq, Eq, Structural)]
pub enum Stage {
    /// Waiting for the first proposals for this predictor.
    Seeding { predictor: usize },
    /// Trying the candidates of this predictor, `at` being the next; past the last of them, about
    /// to settle on the best.
    Scoring { round: usize, predictor: usize, at: usize },
    /// Waiting for further proposals for this predictor.
    Proposing { round: usize, predictor: usize },
    Done,
}

/// An ascent in progress.
#[derive(Debug)]
pub struct Ascent {
    pub settings: COPRO,
    pub originals: Vec<Proposal>,
    /// The candidates of the round under way, per predictor.
    pub latest: Vec<Vec<Proposal>>,
    /// Every candidate so far, per predictor.
    pub all: Vec<Vec<Proposal>>,
    /// The proposals gathered for the next round.
    pub next: Vec<Vec<Proposal>>,
    pub evaluated: Vec<Evaluations>,
    /// The instruction each predictor holds.
    pub current: Vec<String>,
    /// The scores of the newest candidates of the predictor at hand.
    pub newest: Vec<Double>,
    pub stats: CoproStats,
    pub stage: Stage,
}

/// What an [`Ascent`] holds.
#[verifier::ext_equal]
pub struct AscentModel {
    pub settings: COPRO,
    pub originals: Seq<ProposalModel>,
    pub latest: Seq<Seq<ProposalModel>>,
    pub all: Seq<Seq<ProposalModel>>,
    pub next: Seq<Seq<ProposalModel>>,
    pub evaluated: Seq<Seq<EvaluatedModel>>,
    pub current: Seq<Seq<char>>,
    pub newest: Seq<Double>,
    pub stats: StatsModel,
    pub stage: Stage,
}

impl DeepView for Ascent {
    type V = AscentModel;

    open spec fn deep_view(&self) -> AscentModel {
        AscentModel {
            settings: self.settings,
            originals: self.originals.deep_view(),
            latest: self.latest.deep_view(),
            all: self.all.deep_view(),
            next: self.next.deep_view(),
            evaluated: self.evaluated.deep_view(),
            current: self.current.deep_view(),
            newest: self.newest@,
            stats: self.stats.deep_view(),
            stage: self.stage,
        }
    }
}

/// Each predictor's candidates with that predictor's new ones after them.
pub open spec fn extended(
    all: Seq<Seq<ProposalModel>>,
    next: Seq<Seq<ProposalModel>>,
) -> Seq<Seq<ProposalModel>> {
    Seq::new(all.len(), |i: int| all[i] + next[i])
}

/// The instructions of a program, each replaced by the one at its place where there is one.
pub open spec fn instructed(program: Seq<PredictorModel>, instructions: Seq<Seq<char>>) -> Seq<
    PredictorModel,
> {
    Seq::new(
        program.len(),
        |i: int|
            if i < instructions.len() {
                program[i].with_instructions(instructions[i])
            } else {
                program[i]
            },
    )
}

/// An ascent over a program, before anything was asked.
pub open spec fn begun(settings: COPRO, program: Seq<PredictorModel>) -> AscentModel {
    AscentModel {
        settings,
        originals: originals_of(program),
        latest: Seq::empty(),
        all: Seq::empty(),
        next: Seq::empty(),
        evaluated: Seq::new(program.len(), |i: int| Seq::empty()),
        current: Seq::new(program.len(), |i: int| program[i].signature.instructions),
        newest: Seq::empty(),
        stats: no_stats(program.len()),
        stage: if program.len() == 0 {
            Stage::Done
        } else {
            Stage::Seeding { predictor: 0 }
        },
    }
}

impl AscentModel {
    /// How many predictors are being rewritten.
    pub open spec fn predictors(self) -> nat {
        self.originals.len()
    }

    /// The candidates a predictor is tried on: every one so far where there are several
    /// predictors, this round's where there is only one.
    pub open spec fn pool(self, predictor: int) -> Seq<ProposalModel> {
        if self.predictors() > 1 {
            self.all[predictor]
        } else {
            self.latest[predictor]
        }
    }

    /// The candidate to try next.
    pub open spec fn candidate(self) -> Option<ProposalModel> {
        match self.stage {
            Stage::Scoring { predictor, at, .. } => if at < self.pool(predictor as int).len() {
                Some(self.pool(predictor as int)[at as int])
            } else {
                None
            },
            _ => None,
        }
    }

    /// Whether the predictor at hand has been tried on every candidate.
    pub open spec fn ready_to_settle(self) -> bool {
        self.stage is Scoring && self.candidate() is None
    }

    /// The first proposals for a predictor came back. Its own instruction is offered beside them.
    pub open spec fn seeded(self, proposals: Seq<ProposalModel>) -> AscentModel {
        match self.stage {
            Stage::Seeding { predictor } => {
                let pool = proposals.push(self.originals[predictor as int]);
                AscentModel {
                    latest: self.latest.push(pool),
                    all: self.all.push(pool),
                    stage: if predictor + 1 < self.predictors() {
                        Stage::Seeding { predictor: (predictor + 1) as usize }
                    } else if self.settings.depth == 0 {
                        Stage::Done
                    } else {
                        Stage::Scoring { round: 0, predictor: 0, at: 0 }
                    },
                    ..self
                }
            },
            _ => self,
        }
    }

    /// The candidate at hand was scored. Its score counts among the newest where it is one of the
    /// last `breadth` of the pool.
    pub open spec fn scored(self, score: Double) -> AscentModel {
        match self.stage {
            Stage::Scoring { round, predictor, at } => {
                let pool = self.pool(predictor as int);
                let instruction = bare(pool[at as int].instruction);
                let current = self.current.update(predictor as int, instruction);
                let outcome = EvaluatedModel {
                    instruction,
                    prefix: bare(pool[at as int].prefix),
                    score,
                    program: current,
                };
                AscentModel {
                    evaluated: self.evaluated.update(
                        predictor as int,
                        recorded(self.evaluated[predictor as int], outcome),
                    ),
                    current,
                    newest: if at + self.settings.breadth >= pool.len() {
                        self.newest.push(score)
                    } else {
                        self.newest
                    },
                    stats: StatsModel {
                        total_calls: (self.stats.total_calls + 1) as usize,
                        ..self.stats
                    },
                    stage: Stage::Scoring { round, predictor, at: (at + 1) as usize },
                    ..self
                }
            },
            _ => self,
        }
    }

    /// The instruction the predictor at hand is settled on.
    pub open spec fn chosen(self) -> Seq<char> {
        match self.stage {
            Stage::Scoring { predictor, .. } => best_of(
                self.evaluated[predictor as int],
            ).instruction,
            _ => Seq::empty(),
        }
    }

    /// The predictor at hand is settled on its best candidate, and the next one is taken up: the
    /// next predictor, or further proposals, or nothing after the last round.
    pub open spec fn settled(self) -> AscentModel {
        match self.stage {
            Stage::Scoring { round, predictor, at } => AscentModel {
                current: self.current.update(predictor as int, self.chosen()),
                newest: Seq::empty(),
                stats: StatsModel {
                    latest: self.stats.latest.update(
                        predictor as int,
                        with_round(self.stats.latest[predictor as int], round, self.newest),
                    ),
                    best: self.stats.best.update(
                        predictor as int,
                        with_round(
                            self.stats.best[predictor as int],
                            round,
                            highest_ten(scores_in(self.evaluated[predictor as int])),
                        ),
                    ),
                    total_calls: self.stats.total_calls,
                },
                stage: if predictor + 1 < self.predictors() {
                    Stage::Scoring { round, predictor: (predictor + 1) as usize, at: 0 }
                } else if round + 1 == self.settings.depth {
                    Stage::Done
                } else {
                    Stage::Proposing { round, predictor: 0 }
                },
                ..self
            },
            _ => self,
        }
    }

    /// Further proposals for a predictor came back. Once every predictor has its own, they make
    /// the next round.
    pub open spec fn proposed(self, proposals: Seq<ProposalModel>) -> AscentModel {
        match self.stage {
            Stage::Proposing { round, predictor } => {
                let next = self.next.push(proposals);
                if predictor + 1 < self.predictors() {
                    AscentModel {
                        next,
                        stage: Stage::Proposing { round, predictor: (predictor + 1) as usize },
                        ..self
                    }
                } else {
                    AscentModel {
                        latest: next,
                        all: extended(self.all, next),
                        next: Seq::empty(),
                        stage: Stage::Scoring { round: (round + 1) as usize, predictor: 0, at: 0 },
                        ..self
                    }
                }
            },
            _ => self,
        }
    }

    /// What holds at every stage: one pool, one record and one instruction per predictor, and a
    /// predictor is settled only after something was scored for it.
    pub open spec fn well_formed(self) -> bool {
        let n = self.predictors();
        &&& n <= usize::MAX
        &&& self.settings.breadth > 1
        &&& self.evaluated.len() == n
        &&& self.current.len() == n
        &&& self.stats.best.len() == n
        &&& self.stats.latest.len() == n
        &&& forall|q: int, k: int|
            0 <= q < n && 0 <= k < self.evaluated[q].len() ==> (#[trigger] self.evaluated[q][k]).program.len()
                == n
        &&& match self.stage {
            Stage::Seeding { predictor } => {
                &&& predictor < n
                &&& self.latest.len() == predictor
                &&& self.all.len() == predictor
                &&& self.next.len() == 0
                &&& forall|q: int|
                    0 <= q < predictor ==> (#[trigger] self.latest[q]).len() > 0
                &&& forall|q: int| 0 <= q < predictor ==> (#[trigger] self.all[q]).len() > 0
            },
            Stage::Scoring { round, predictor, at } => {
                &&& predictor < n
                &&& self.latest.len() == n
                &&& self.all.len() == n
                &&& self.next.len() == 0
                &&& round < self.settings.depth
                &&& at <= self.pool(predictor as int).len()
                &&& round == 0 ==> forall|q: int|
                    0 <= q < n ==> (#[trigger] self.latest[q]).len() > 0
                &&& round == 0 ==> forall|q: int|
                    0 <= q < n ==> (#[trigger] self.all[q]).len() > 0
                &&& at > 0 ==> self.evaluated[predictor as int].len() > 0
                &&& forall|q: int|
                    0 <= q < n && (round > 0 || q < predictor) ==> (#[trigger] self.evaluated[q]).len()
                        > 0
            },
            Stage::Proposing { round, predictor } => {
                &&& predictor < n
                &&& self.latest.len() == n
                &&& self.all.len() == n
                &&& self.next.len() == predictor
                &&& round + 1 < self.settings.depth
                &&& forall|q: int| 0 <= q < n ==> (#[trigger] self.evaluated[q]).len() > 0
            },
            Stage::Done => true,
        }
    }
}

impl Ascent {
    /// An ascent over a program. It is refused where a round would leave nothing to choose
    /// between, and over at once where there is no predictor.
    pub fn begin(settings: COPRO, student: &Program) -> (r: Result<Ascent, TooNarrow>)
        ensures
            match r {
                Ok(ascent) => {
                    &&& settings.breadth > 1
                    &&& ascent.deep_view() == begun(settings, student.deep_view())
                    &&& ascent.deep_view().well_formed()
                },
                Err(_) => settings.breadth <= 1,
            },
    {
        if settings.breadth <= 1 {
            return Err(TooNarrow);
        }
        let predictors: usize = student.len();
        let mut evaluated: Vec<Evaluations> = Vec::new();
        let mut current: Vec<String> = Vec::new();
        let ghost model = student.deep_view();
        let mut i: usize = 0;
        while i < predictors
            invariant
                i <= predictors,
                predictors == student.predictors@.len(),
                model == student.deep_view(),
                evaluated.deep_view() =~= Seq::new(i as nat, |i: int| Seq::<EvaluatedModel>::empty()),
                current.deep_view() =~= Seq::new(
                    i as nat,
                    |i: int| model[i].signature.instructions,
                ),
            decreases predictors - i,
        {
            append(&mut evaluated, Evaluations::default());
            append(&mut current, student.predictors[i].signature.instructions.clone());
            i = i + 1;
        }
        let ascent = Ascent {
            settings,
            originals: originals(student),
            latest: Vec::new(),
            all: Vec::new(),
            next: Vec::new(),
            evaluated,
            current,
            newest: Vec::new(),
            stats: CoproStats::for_predictors(predictors),
            stage: if predictors == 0 {
                Stage::Done
            } else {
                Stage::Seeding { predictor: 0 }
            },
        };
        proof {
            assert(ascent.deep_view() =~= begun(settings, student.deep_view()));
        }
        Ok(ascent)
    }

    /// The instruction to ask a first set of rivals for, and how many.
    pub fn seed_request(&self) -> (r: Option<(String, usize)>)
        requires
            self.deep_view().well_formed(),
        ensures
            match r {
                Some((instruction, count)) => {
                    &&& self.deep_view().stage is Seeding
                    &&& instruction@
                        == self.deep_view().originals[self.stage->Seeding_predictor as int].instruction
                    &&& count == self.settings.breadth - 1
                },
                None => !(self.deep_view().stage is Seeding),
            },
    {
        match self.stage {
            Stage::Seeding { predictor } => Some(
                (self.originals[predictor].instruction.clone(), self.settings.breadth - 1),
            ),
            _ => None,
        }
    }

    /// The first proposals for a predictor came back.
    pub fn seeded(&mut self, proposals: Vec<Proposal>)
        requires
            old(self).deep_view().well_formed(),
            old(self).deep_view().stage is Seeding,
        ensures
            final(self).deep_view() == old(self).deep_view().seeded(proposals.deep_view()),
            final(self).deep_view().well_formed(),
    {
        if let Stage::Seeding { predictor } = self.stage {
            let mut pool = proposals;
            append(&mut pool, self.originals[predictor].duplicate());
            append(&mut self.all, pool.duplicate());
            append(&mut self.latest, pool);
            self.stage =
            if predictor + 1 < self.originals.len() {
                Stage::Seeding { predictor: predictor + 1 }
            } else if self.settings.depth == 0 {
                Stage::Done
            } else {
                Stage::Scoring { round: 0, predictor: 0, at: 0 }
            };
        }
        proof {
            assert(self.deep_view() =~= old(self).deep_view().seeded(proposals.deep_view()));
        }
    }

    /// Puts the candidate at hand into the student, where there is one.
    pub fn install(&self, student: &mut Program) -> (r: bool)
        requires
            self.deep_view().well_formed(),
            old(student).deep_view().len() == self.deep_view().predictors(),
        ensures
            r == self.deep_view().candidate() is Some,
            final(student).deep_view() == match self.deep_view().candidate() {
                Some(candidate) => old(student).deep_view().update(
                    self.stage->Scoring_predictor as int,
                    old(student).deep_view()[self.stage->Scoring_predictor as int].with_instructions(
                        bare(candidate.instruction),
                    ),
                ),
                None => old(student).deep_view(),
            },
    {
        if let Stage::Scoring { predictor, at, .. } = self.stage {
            let pool = if self.originals.len() > 1 {
                &self.all[predictor]
            } else {
                &self.latest[predictor]
            };
            proof {
                assert(pool.deep_view() == self.deep_view().pool(predictor as int));
            }
            if at < pool.len() {
                proof {
                    assert(pool.deep_view()[at as int] == pool@[at as int].deep_view());
                }
                let instruction = stripped(pool[at].instruction.as_str());
                student.set_instruction(predictor, instruction.as_str());
                return true;
            }
        }
        false
    }

    /// The candidate at hand was scored.
    pub fn scored(&mut self, score: Double)
        requires
            old(self).deep_view().well_formed(),
            old(self).deep_view().candidate() is Some,
            old(self).deep_view().stats.total_calls < usize::MAX,
        ensures
            final(self).deep_view() == old(self).deep_view().scored(score),
            final(self).deep_view().well_formed(),
    {
        let ghost was = self.deep_view();
        if let Stage::Scoring { round, predictor, at } = self.stage {
            let pool = if self.originals.len() > 1 {
                &self.all[predictor]
            } else {
                &self.latest[predictor]
            };
            proof {
                assert(pool.deep_view() == was.pool(predictor as int));
                assert(pool.deep_view()[at as int] == pool@[at as int].deep_view());
            }
            let instruction = stripped(pool[at].instruction.as_str());
            let prefix = stripped(pool[at].prefix.as_str());
            let is_new: bool = pool.len() - at <= self.settings.breadth;
            self.current.set(predictor, instruction.clone());
            proof {
                assert(self.current.deep_view() =~= was.current.update(
                    predictor as int,
                    instruction@,
                ));
            }
            let outcome = Evaluated {
                instruction,
                prefix,
                score,
                program: self.current.duplicate(),
            };
            let ghost model = outcome.deep_view();
            self.evaluated[predictor].record(outcome);
            proof {
                assert(self.evaluated.deep_view() =~= was.evaluated.update(
                    predictor as int,
                    recorded(was.evaluated[predictor as int], model),
                ));
                candidates::lemma_recorded(was.evaluated[predictor as int], model);
            }
            if is_new {
                self.newest.push(score);
            }
            self.stats.total_calls = self.stats.total_calls + 1;
            self.stage = Stage::Scoring { round, predictor, at: at + 1 };
        }
        proof {
            assert(self.deep_view() =~= was.scored(score));
            lemma_scored_well_formed(was, score);
        }
    }

    /// Settles the predictor at hand on its best candidate, in the student too.
    pub fn settle(&mut self, student: &mut Program)
        requires
            old(self).deep_view().well_formed(),
            old(self).deep_view().ready_to_settle(),
            old(student).deep_view().len() == old(self).deep_view().predictors(),
        ensures
            final(self).deep_view() == old(self).deep_view().settled(),
            final(self).deep_view().well_formed(),
            final(student).deep_view() == old(student).deep_view().update(
                old(self).stage->Scoring_predictor as int,
                old(student).deep_view()[old(
                    self,
                ).stage->Scoring_predictor as int].with_instructions(old(self).deep_view().chosen()),
            ),
    {
        let ghost was = self.deep_view();
        if let Stage::Scoring { round, predictor, at } = self.stage {
            proof {
                assert(was.evaluated[predictor as int].len() > 0);
                assert(was.evaluated[predictor as int]
                    == self.evaluated@[predictor as int].deep_view());
            }
            let mut newest: Vec<Double> = Vec::new();
            std::mem::swap(&mut newest, &mut self.newest);
            add_round(&mut self.stats.latest, predictor, round, newest);
            let seen = self.evaluated[predictor].scores();
            add_round(&mut self.stats.best, predictor, round, CoproStats::top_ten(&seen));
            let best = self.evaluated[predictor].best().instruction.clone();
            student.set_instruction(predictor, best.as_str());
            self.current.set(predictor, best);
            proof {
                assert(self.current.deep_view() =~= was.current.update(
                    predictor as int,
                    was.chosen(),
                ));
            }
            self.stage =
            if predictor + 1 < self.originals.len() {
                Stage::Scoring { round, predictor: predictor + 1, at: 0 }
            } else if round + 1 == self.settings.depth {
                Stage::Done
            } else {
                Stage::Proposing { round, predictor: 0 }
            };
        }
        proof {
            assert(self.deep_view() =~= was.settled());
        }
    }

    /// What the model is shown of this predictor's attempts, to ask it for `breadth` more.
    /// `score_texts` is how the score of each of its candidates prints.
    pub fn attempts_request(&self, score_texts: &Vec<String>) -> (r: Option<(Vec<String>, usize)>)
        requires
            self.deep_view().well_formed(),
            self.stage matches Stage::Proposing { predictor, .. } ==> score_texts@.len()
                == self.deep_view().evaluated[predictor as int].len(),
        ensures
            match r {
                Some((attempts, count)) => {
                    &&& self.deep_view().stage is Proposing
                    &&& attempts.deep_view() == attempts_block(
                        self.deep_view().evaluated[self.stage->Proposing_predictor as int],
                        score_texts.deep_view(),
                        self.settings.breadth as nat,
                    )
                    &&& count == self.settings.breadth
                },
                None => !(self.deep_view().stage is Proposing),
            },
    {
        match self.stage {
            Stage::Proposing { predictor, .. } => {
                proof {
                    assert(self.deep_view().evaluated[predictor as int]
                        == self.evaluated@[predictor as int].deep_view());
                }
                let attempts = self.evaluated[predictor].attempts(self.settings.breadth, score_texts);
                Some((attempts, self.settings.breadth))
            },
            _ => None,
        }
    }

    /// Further proposals for a predictor came back.
    pub fn proposed(&mut self, proposals: Vec<Proposal>)
        requires
            old(self).deep_view().well_formed(),
            old(self).deep_view().stage is Proposing,
        ensures
            final(self).deep_view() == old(self).deep_view().proposed(proposals.deep_view()),
            final(self).deep_view().well_formed(),
    {
        let ghost was = self.deep_view();
        let ghost model = proposals.deep_view();
        if let Stage::Proposing { round, predictor } = self.stage {
            append(&mut self.next, proposals);
            if predictor + 1 < self.originals.len() {
                self.stage = Stage::Proposing { round, predictor: predictor + 1 };
            } else {
                let mut next: Vec<Vec<Proposal>> = Vec::new();
                std::mem::swap(&mut next, &mut self.next);
                extend_each(&mut self.all, &next);
                self.latest = next;
                self.stage = Stage::Scoring { round: round + 1, predictor: 0, at: 0 };
            }
        }
        proof {
            assert(self.deep_view() =~= was.proposed(model));
        }
    }

    /// Leaves the student on the instructions that scored highest over the whole search, or as it
    /// is where nothing was scored, and hands back what was recorded.
    pub fn finish(self, student: &mut Program) -> (r: CoproStats)
        ensures
            r.deep_view() == self.deep_view().stats,
            final(student).deep_view() == match winning_program(self.deep_view().evaluated) {
                Some(program) => instructed(old(student).deep_view(), program),
                None => old(student).deep_view(),
            },
    {
        if let Some(program) = best_program(&self.evaluated) {
            let ghost model = student.deep_view();
            let ghost winners = program.deep_view();
            let mut i: usize = 0;
            while i < program.len() && i < student.len()
                invariant
                    i <= program@.len(),
                    i <= model.len(),
                    student.deep_view().len() == model.len(),
                    winners == program.deep_view(),
                    forall|j: int|
                        0 <= j < model.len() ==> student.deep_view()[j] == (if j < i {
                            model[j].with_instructions(winners[j])
                        } else {
                            model[j]
                        }),
                decreases program@.len() - i,
            {
                student.set_instruction(i, program[i].as_str());
                i = i + 1;
            }
            proof {
                assert(student.deep_view() =~= instructed(model, winners));
            }
        }
        self.stats
    }
}

fn extend_each(all: &mut Vec<Vec<Proposal>>, next: &Vec<Vec<Proposal>>)
    requires
        old(all)@.len() == next@.len(),
    ensures
        final(all).deep_view() == extended(old(all).deep_view(), next.deep_view()),
{
    let ghost was = all.deep_view();
    let ghost more = next.deep_view();
    let mut i: usize = 0;
    while i < all.len()
        invariant
            i <= all@.len(),
            all@.len() == was.len(),
            all@.len() == next@.len(),
            more == next.deep_view(),
            forall|j: int|
                0 <= j < was.len() ==> all.deep_view()[j] == (if j < i {
                    was[j] + more[j]
                } else {
                    was[j]
                }),
        decreases all@.len() - i,
    {
        let ghost before = all.deep_view();
        append_all(&mut all[i], &next[i]);
        proof {
            assert(all.deep_view() =~= before.update(i as int, before[i as int] + more[i as int]));
        }
        i = i + 1;
    }
    proof {
        assert(all.deep_view() =~= extended(was, more));
    }
}

proof fn lemma_scored_well_formed(ascent: AscentModel, score: Double)
    requires
        ascent.well_formed(),
        ascent.candidate() is Some,
    ensures
        ascent.scored(score).well_formed(),
{
    let after = ascent.scored(score);
    if let Stage::Scoring { round, predictor, at } = ascent.stage {
        let p = predictor as int;
        let pool = ascent.pool(p);
        let instruction = bare(pool[at as int].instruction);
        let outcome = EvaluatedModel {
            instruction,
            prefix: bare(pool[at as int].prefix),
            score,
            program: ascent.current.update(p, instruction),
        };
        candidates::lemma_recorded(ascent.evaluated[p], outcome);
        assert forall|q: int, k: int|
            0 <= q < after.predictors() && 0 <= k < after.evaluated[q].len() implies (
        #[trigger] after.evaluated[q][k]).program.len() == after.predictors() by {
            if q == p {
                if after.evaluated[p][k] != outcome {
                    assert(after.evaluated[p][k] == ascent.evaluated[p][k]);
                }
            } else {
                assert(after.evaluated[q] == ascent.evaluated[q]);
                assert(ascent.evaluated[q][k].program.len() == ascent.predictors());
            }
        }
    }
}

/// A predictor's own instruction is always among its first candidates, so keeping it is always an
/// option.
pub proof fn law_the_original_is_always_offered(
    ascent: AscentModel,
    proposals: Seq<ProposalModel>,
    settings: COPRO,
    program: Seq<PredictorModel>,
    p: int,
)
    requires
        ascent.stage is Seeding,
        0 <= p < program.len(),
    ensures
        begun(settings, program).originals.len() == program.len(),
        begun(settings, program).originals[p].instruction == program[p].signature.instructions,
        begun(settings, program).current[p] == program[p].signature.instructions,
        ascent.seeded(proposals).all.last() == proposals.push(
            ascent.originals[ascent.stage->Seeding_predictor as int],
        ),
        ascent.seeded(proposals).latest.last() == ascent.seeded(proposals).all.last(),
{
}

/// Settling a predictor and scoring a candidate leave every other predictor's instruction as it
/// stands: the ascent moves along one coordinate at a time.
pub proof fn law_one_coordinate_moves_at_a_time(ascent: AscentModel, score: Double, other: int)
    requires
        ascent.well_formed(),
        ascent.stage is Scoring,
        0 <= other < ascent.predictors(),
        other != ascent.stage->Scoring_predictor,
    ensures
        ascent.scored(score).current[other] == ascent.current[other],
        ascent.scored(score).evaluated[other] == ascent.evaluated[other],
        ascent.settled().current[other] == ascent.current[other],
        ascent.settled().evaluated == ascent.evaluated,
{
}

/// What happens to an ascent, one step at a time.
pub enum Event {
    Seeded { proposals: Seq<ProposalModel> },
    Scored { score: Double },
    Settled,
    Proposed { proposals: Seq<ProposalModel> },
}

impl AscentModel {
    /// The ascent after one event.
    pub open spec fn after(self, event: Event) -> AscentModel {
        match event {
            Event::Seeded { proposals } => self.seeded(proposals),
            Event::Scored { score } => self.scored(score),
            Event::Settled => self.settled(),
            Event::Proposed { proposals } => self.proposed(proposals),
        }
    }

    /// Whether an event is one the ascent waits for. A score is a number.
    pub open spec fn awaits(self, event: Event) -> bool {
        match event {
            Event::Seeded { .. } => self.stage is Seeding,
            Event::Scored { score } => self.candidate() is Some && !is_nan(score),
            Event::Settled => self.ready_to_settle(),
            Event::Proposed { .. } => self.stage is Proposing,
        }
    }
}

/// An ascent over a program after these events.
pub open spec fn ascended(
    settings: COPRO,
    program: Seq<PredictorModel>,
    events: Seq<Event>,
) -> AscentModel
    decreases events.len(),
{
    if events.len() == 0 {
        begun(settings, program)
    } else {
        ascended(settings, program, events.drop_last()).after(events.last())
    }
}

/// Whether each event was waited for when it came.
pub open spec fn orderly(
    settings: COPRO,
    program: Seq<PredictorModel>,
    events: Seq<Event>,
) -> bool
    decreases events.len(),
{
    events.len() == 0 || (orderly(settings, program, events.drop_last()) && ascended(
        settings,
        program,
        events.drop_last(),
    ).awaits(events.last()))
}

/// Every program that was scored, as its instructions, and what it scored.
pub open spec fn programs_scored(
    settings: COPRO,
    program: Seq<PredictorModel>,
    events: Seq<Event>,
) -> Seq<(Seq<Seq<char>>, Double)>
    decreases events.len(),
{
    if events.len() == 0 {
        Seq::empty()
    } else {
        let before = programs_scored(settings, program, events.drop_last());
        match events.last() {
            Event::Scored { score } => before.push(
                (ascended(settings, program, events).current, score),
            ),
            _ => before,
        }
    }
}

/// Whether a score is held for some candidate that is no lower than this one.
pub open spec fn held_as_high(evaluated: Seq<Seq<EvaluatedModel>>, score: Double) -> bool {
    exists|q: int, k: int|
        0 <= q < evaluated.len() && 0 <= k < evaluated[q].len() && !exceeds(
            score,
            (#[trigger] evaluated[q][k]).score,
        ) && !is_nan(evaluated[q][k].score)
}

/// Whether every score held is a number, and that of a program that was scored.
pub open spec fn held_was_scored(
    evaluated: Seq<Seq<EvaluatedModel>>,
    log: Seq<(Seq<Seq<char>>, Double)>,
) -> bool {
    forall|q: int, k: int|
        0 <= q < evaluated.len() && 0 <= k < evaluated[q].len() ==> !is_nan(
            (#[trigger] evaluated[q][k]).score,
        ) && log.contains((evaluated[q][k].program, evaluated[q][k].score))
}

proof fn lemma_run_is_recorded(
    settings: COPRO,
    program: Seq<PredictorModel>,
    events: Seq<Event>,
)
    requires
        orderly(settings, program, events),
        program.len() <= usize::MAX,
    ensures
        ({
            let ascent = ascended(settings, program, events);
            let log = programs_scored(settings, program, events);
            &&& ascent.predictors() == program.len()
            &&& ascent.evaluated.len() == program.len()
            &&& match ascent.stage {
                Stage::Seeding { predictor } => predictor < program.len(),
                Stage::Scoring { predictor, .. } => predictor < program.len(),
                Stage::Proposing { predictor, .. } => predictor < program.len(),
                Stage::Done => true,
            }
            &&& held_was_scored(ascent.evaluated, log)
            &&& forall|j: int|
                0 <= j < log.len() ==> held_as_high(ascent.evaluated, (#[trigger] log[j]).1)
                    && !is_nan(log[j].1)
        }),
    decreases events.len(),
{
    if events.len() > 0 {
        let earlier = events.drop_last();
        lemma_run_is_recorded(settings, program, earlier);
        let was = ascended(settings, program, earlier);
        let now = ascended(settings, program, events);
        let before = programs_scored(settings, program, earlier);
        let log = programs_scored(settings, program, events);
        match events.last() {
            Event::Scored { score } => {
                lemma_scoring_is_recorded(was, before, score);
                assert(log == before.push((now.current, score)));
            },
            _ => {
                assert(now.evaluated == was.evaluated);
                assert(log == before);
            },
        }
    } else {
        let start = begun(settings, program);
        assert(held_was_scored(start.evaluated, programs_scored(settings, program, events)));
    }
}

proof fn lemma_scoring_is_recorded(
    was: AscentModel,
    before: Seq<(Seq<Seq<char>>, Double)>,
    score: Double,
)
    requires
        was.candidate() is Some,
        was.stage->Scoring_predictor < was.evaluated.len(),
        !is_nan(score),
        held_was_scored(was.evaluated, before),
        forall|j: int|
            0 <= j < before.len() ==> held_as_high(was.evaluated, (#[trigger] before[j]).1)
                && !is_nan(before[j].1),
    ensures
        ({
            let now = was.scored(score);
            let log = before.push((now.current, score));
            &&& held_was_scored(now.evaluated, log)
            &&& forall|j: int|
                0 <= j < log.len() ==> held_as_high(now.evaluated, (#[trigger] log[j]).1) && !is_nan(
                    log[j].1,
                )
        }),
{
    let now = was.scored(score);
    let log = before.push((now.current, score));
    let p = was.stage->Scoring_predictor as int;
    let at = was.stage->Scoring_at as int;
    let pool = was.pool(p);
    let instruction = bare(pool[at].instruction);
    let outcome = EvaluatedModel {
        instruction,
        prefix: bare(pool[at].prefix),
        score,
        program: was.current.update(p, instruction),
    };
    let entries = was.evaluated[p];
    let after = recorded(entries, outcome);
    candidates::lemma_recorded(entries, outcome);
    assert(now.evaluated == was.evaluated.update(p, after));
    assert(log[before.len() as int] == (outcome.program, score));
    assert forall|q: int, k: int|
        0 <= q < now.evaluated.len() && 0 <= k < now.evaluated[q].len() implies !is_nan(
        (#[trigger] now.evaluated[q][k]).score,
    ) && log.contains((now.evaluated[q][k].program, now.evaluated[q][k].score)) by {
        if q == p && now.evaluated[q][k] == outcome {
            assert(log.contains((outcome.program, score)));
        } else {
            let entry = was.evaluated[q][k];
            assert(now.evaluated[q][k] == entry);
            assert(before.contains((entry.program, entry.score)));
            let j = choose|j: int|
                0 <= j < before.len() && before[j] == (entry.program, entry.score);
            assert(log[j] == (entry.program, entry.score));
        }
    }
    assert forall|j: int| 0 <= j < log.len() implies held_as_high(
        now.evaluated,
        (#[trigger] log[j]).1,
    ) && !is_nan(log[j].1) by {
        if j < before.len() {
            assert(before[j] == log[j]);
            let (q, k) = choose|q: int, k: int|
                0 <= q < was.evaluated.len() && 0 <= k < was.evaluated[q].len() && !exceeds(
                    before[j].1,
                    (#[trigger] was.evaluated[q][k]).score,
                ) && !is_nan(was.evaluated[q][k].score);
            if q == p {
                law_a_recorded_score_never_falls(entries, outcome, k);
                let held = now.evaluated[p][k];
                assert(!exceeds(was.evaluated[p][k].score, held.score));
                assert(!is_nan(held.score));
                assert(!exceeds(before[j].1, held.score));
            } else {
                assert(now.evaluated[q][k] == was.evaluated[q][k]);
            }
        } else {
            candidates::lemma_held_after(entries, outcome);
            let place = candidates::place(entries, outcome);
            let held = now.evaluated[p][place];
            assert(!exceeds(score, held.score));
            assert(!is_nan(held.score));
        }
    }
}

/// The run ends on a program that was scored, and no program scored in the run scored higher.
pub proof fn law_no_program_scored_higher_than_the_last(
    settings: COPRO,
    program: Seq<PredictorModel>,
    events: Seq<Event>,
)
    requires
        orderly(settings, program, events),
        program.len() <= usize::MAX,
        programs_scored(settings, program, events).len() > 0,
        all_evaluated(ascended(settings, program, events).evaluated).len() <= usize::MAX,
    ensures
        ({
            let log = programs_scored(settings, program, events);
            let ended = winning_program(ascended(settings, program, events).evaluated);
            exists|i: int|
                0 <= i < log.len() && ended == Some((#[trigger] log[i]).0) && forall|j: int|
                    0 <= j < log.len() ==> !exceeds((#[trigger] log[j]).1, log[i].1)
        }),
{
    let ascent = ascended(settings, program, events);
    let log = programs_scored(settings, program, events);
    let evaluated = ascent.evaluated;
    let all = all_evaluated(evaluated);
    lemma_run_is_recorded(settings, program, events);
    assert(held_as_high(evaluated, log[0].1));
    let (q0, k0) = choose|q: int, k: int|
        0 <= q < evaluated.len() && 0 <= k < evaluated[q].len() && !exceeds(
            log[0].1,
            (#[trigger] evaluated[q][k]).score,
        ) && !is_nan(evaluated[q][k].score);
    candidates::lemma_is_listed(evaluated, q0, k0);
    candidates::lemma_a_listed_one_is_held(evaluated, 0);
    let order = ranked(By::Total, scores_in(all));
    lemma_ranked(By::Total, scores_in(all));
    let first = order[0] as int;
    let winner = all[first];
    candidates::lemma_a_listed_one_is_held(evaluated, first);
    let (q, k) = choose|q: int, k: int|
        0 <= q < evaluated.len() && 0 <= k < evaluated[q].len() && #[trigger] evaluated[q][k]
            == winner;
    assert(log.contains((winner.program, winner.score)));
    let i = choose|i: int| 0 <= i < log.len() && log[i] == (winner.program, winner.score);
    assert forall|j: int| 0 <= j < log.len() implies !exceeds((#[trigger] log[j]).1, log[i].1) by {
        assert(held_as_high(evaluated, log[j].1));
        let (qj, kj) = choose|q: int, k: int|
            0 <= q < evaluated.len() && 0 <= k < evaluated[q].len() && !exceeds(
                log[j].1,
                (#[trigger] evaluated[q][k]).score,
            ) && !is_nan(evaluated[q][k].score);
        let at = candidates::lemma_is_listed(evaluated, qj, kj);
        law_the_search_ends_on_the_highest_score(evaluated, order, at);
        assert(!is_nan(winner.score));
    }
    law_the_search_ends_on_the_highest_score(evaluated, order, first);
    assert(winning_program(evaluated) == Some(log[i].0));
}

/// What is installed in the student is what the score that follows is recorded for: the candidate at
/// hand, in its predictor, beside the instructions the other predictors hold.
pub proof fn law_what_is_scored_is_the_candidate_at_hand(ascent: AscentModel, score: Double)
    requires
        ascent.well_formed(),
        ascent.candidate() is Some,
        ascent.pool(ascent.stage->Scoring_predictor as int).len() <= usize::MAX,
    ensures
        ({
            let p = ascent.stage->Scoring_predictor as int;
            let at = ascent.stage->Scoring_at as int;
            let after = ascent.scored(score);
            &&& ascent.candidate() == Some(ascent.pool(p)[at])
            &&& after.current[p] == bare(ascent.candidate()->0.instruction)
            &&& exists|e: int|
                0 <= e < after.evaluated[p].len() && (#[trigger] after.evaluated[p][e]).instruction
                    == bare(ascent.candidate()->0.instruction)
            &&& after.pool(p) == ascent.pool(p)
            &&& after.stage->Scoring_at == at + 1
            &&& after.stage->Scoring_predictor == p
        }),
{
    let p = ascent.stage->Scoring_predictor as int;
    let at = ascent.stage->Scoring_at as int;
    let pool = ascent.pool(p);
    let instruction = bare(pool[at].instruction);
    let outcome = EvaluatedModel {
        instruction,
        prefix: bare(pool[at].prefix),
        score,
        program: ascent.current.update(p, instruction),
    };
    candidates::law_a_recorded_pair_is_held(ascent.evaluated[p], outcome);
    let after = recorded(ascent.evaluated[p], outcome);
    let e = choose|e: int|
        0 <= e < after.len() && (#[trigger] after[e]).instruction == instruction && after[e].prefix
            == outcome.prefix;
    assert(ascent.scored(score).evaluated[p][e].instruction == instruction);
}

/// Once the last predictor's proposals are in, the next round tries them: of a one-predictor program
/// exactly the proposals made for it, and of a longer one every predictor's earlier candidates with
/// its new proposals behind them. Until then they are gathered in order.
pub proof fn law_the_next_round_tries_what_was_proposed(
    ascent: AscentModel,
    proposals: Seq<ProposalModel>,
    q: int,
)
    requires
        ascent.well_formed(),
        ascent.stage is Proposing,
        0 <= q < ascent.predictors(),
    ensures
        ({
            let given = ascent.next.push(proposals);
            let after = ascent.proposed(proposals);
            if given.len() == ascent.predictors() {
                &&& after.stage == (Stage::Scoring {
                    round: (ascent.stage->Proposing_round + 1) as usize,
                    predictor: 0,
                    at: 0,
                })
                &&& ascent.predictors() == 1 ==> after.pool(0) == proposals
                &&& ascent.predictors() > 1 ==> after.pool(q) == ascent.all[q] + given[q]
                &&& ascent.predictors() > 1 ==> after.all[q] == ascent.all[q] + given[q]
                &&& proposals.len() > 0 && ascent.predictors() == 1 ==> after.candidate() == Some(
                    proposals[0],
                )
                &&& after.next.len() == 0
            } else {
                &&& after.stage is Proposing
                &&& after.stage->Proposing_predictor == given.len()
                &&& after.next == given
                &&& after.all == ascent.all
            }
        }),
{
}

/// Whether a program was scored in which this predictor held this proposal's instruction.
pub open spec fn tried(
    log: Seq<(Seq<Seq<char>>, Double)>,
    q: int,
    proposal: ProposalModel,
) -> bool {
    exists|j: int| 0 <= j < log.len() && (#[trigger] log[j]).0[q] == bare(proposal.instruction)
}

/// Which predictor an ascent waits for proposals for.
pub open spec fn asked_about(ascent: AscentModel) -> int {
    match ascent.stage {
        Stage::Seeding { predictor } => predictor as int,
        Stage::Proposing { predictor, .. } => predictor as int,
        _ => 0,
    }
}

/// The proposals an event hands in.
pub open spec fn handed_in(event: Event) -> Seq<ProposalModel> {
    match event {
        Event::Seeded { proposals } => proposals,
        Event::Proposed { proposals } => proposals,
        _ => Seq::empty(),
    }
}

/// How many of these events hand in first proposals.
pub open spec fn seedings(events: Seq<Event>) -> nat
    decreases events.len(),
{
    if events.len() == 0 {
        0
    } else {
        seedings(events.drop_last()) + if events.last() is Seeded {
            1nat
        } else {
            0nat
        }
    }
}

/// How many of these events hand in further proposals.
pub open spec fn further_proposals(events: Seq<Event>) -> nat
    decreases events.len(),
{
    if events.len() == 0 {
        0
    } else {
        further_proposals(events.drop_last()) + if events.last() is Proposed {
            1nat
        } else {
            0nat
        }
    }
}

/// Whether a proposal is still to be tried on its predictor.
spec fn waits(ascent: AscentModel, q: int, proposal: ProposalModel) -> bool {
    match ascent.stage {
        Stage::Seeding { predictor } => 0 <= q < predictor && ascent.latest[q].contains(proposal)
            && ascent.all[q].contains(proposal),
        Stage::Scoring { predictor, at, .. } => {
            ||| predictor < q < ascent.predictors() && ascent.pool(q).contains(proposal)
            ||| q == predictor && exists|m: int|
                at <= m < ascent.pool(q).len() && #[trigger] ascent.pool(q)[m] == proposal
        },
        Stage::Proposing { predictor, .. } => 0 <= q < predictor && ascent.next[q].contains(
            proposal,
        ),
        Stage::Done => false,
    }
}

/// Whether an ascent has what its stage needs, after so many first and further proposals.
spec fn in_step(ascent: AscentModel, seeds: nat, further: nat) -> bool {
    let n = ascent.predictors();
    &&& 0 < n <= usize::MAX
    &&& ascent.settings.depth > 0
    &&& ascent.current.len() == n
    &&& match ascent.stage {
        Stage::Seeding { predictor } => {
            &&& predictor < n
            &&& ascent.latest.len() == predictor
            &&& ascent.all.len() == predictor
            &&& ascent.next.len() == 0
            &&& seeds == predictor
            &&& further == 0
        },
        Stage::Scoring { round, predictor, .. } => {
            &&& predictor < n
            &&& round < ascent.settings.depth
            &&& ascent.latest.len() == n
            &&& ascent.all.len() == n
            &&& ascent.next.len() == 0
            &&& seeds == n
            &&& further == n * round
        },
        Stage::Proposing { round, predictor } => {
            &&& predictor < n
            &&& round + 1 < ascent.settings.depth
            &&& ascent.latest.len() == n
            &&& ascent.all.len() == n
            &&& ascent.next.len() == predictor
            &&& seeds == n
            &&& further == n * round + predictor
        },
        Stage::Done => seeds == n && further == n * (ascent.settings.depth - 1),
    }
}

proof fn lemma_in_step(settings: COPRO, program: Seq<PredictorModel>, events: Seq<Event>)
    requires
        orderly(settings, program, events),
        0 < program.len() <= usize::MAX,
        settings.depth > 0,
    ensures
        in_step(
            ascended(settings, program, events),
            seedings(events),
            further_proposals(events),
        ),
        ascended(settings, program, events).predictors() == program.len(),
        ascended(settings, program, events).settings == settings,
    decreases events.len(),
{
    if events.len() > 0 {
        lemma_in_step(settings, program, events.drop_last());
        let was = ascended(settings, program, events.drop_last());
        let n = program.len() as int;
        match was.stage {
            Stage::Proposing { round, .. } => {
                assert(n * (round + 1) == n * round + n) by (nonlinear_arith);
            },
            Stage::Scoring { round, .. } => {
                assert(n * 0 == 0);
            },
            _ => {
                assert(n * 0 == 0);
            },
        }
    }
}

proof fn lemma_waiting_is_tried(
    was: AscentModel,
    event: Event,
    seeds: nat,
    further: nat,
    q: int,
    proposal: ProposalModel,
)
    requires
        in_step(was, seeds, further),
        was.awaits(event),
        waits(was, q, proposal),
        was.stage is Scoring ==> was.pool(was.stage->Scoring_predictor as int).len() <= usize::MAX,
    ensures
        waits(was.after(event), q, proposal) || (event is Scored && was.after(event).current[q]
            == bare(proposal.instruction)),
{
    let now = was.after(event);
    match event {
        Event::Seeded { proposals } => {
            assert(now.latest[q] == was.latest[q]);
            assert(now.all[q] == was.all[q]);
            if now.stage is Scoring && q == 0 {
                let m = choose|m: int| 0 <= m < now.pool(0).len() && now.pool(0)[m] == proposal;
                assert(now.pool(0)[m] == proposal);
            }
        },
        Event::Scored { score } => {
            let p = was.stage->Scoring_predictor as int;
            let at = was.stage->Scoring_at as int;
            assert(now.pool(q) == was.pool(q));
            if q == p {
                let m = choose|m: int|
                    at <= m < was.pool(q).len() && #[trigger] was.pool(q)[m] == proposal;
                if m > at {
                    assert(now.pool(q)[m] == proposal);
                }
            }
        },
        Event::Settled => {
            assert(now.pool(q) == was.pool(q));
            let p = was.stage->Scoring_predictor as int;
            if q == p + 1 {
                let m = choose|m: int| 0 <= m < now.pool(q).len() && now.pool(q)[m] == proposal;
                assert(now.pool(q)[m] == proposal);
            }
        },
        Event::Proposed { proposals } => {
            let given = was.next.push(proposals);
            assert(given[q] == was.next[q]);
            if now.stage is Scoring {
                lemma_gathered_is_pooled(was, proposals, q, proposal);
            }
        },
    }
}

proof fn lemma_gathered_is_pooled(
    was: AscentModel,
    proposals: Seq<ProposalModel>,
    q: int,
    proposal: ProposalModel,
)
    requires
        was.stage is Proposing,
        was.next.len() + 1 == was.predictors(),
        was.next.len() == was.stage->Proposing_predictor,
        was.all.len() == was.predictors(),
        0 <= q < was.predictors(),
        was.next.push(proposals)[q].contains(proposal),
    ensures
        waits(was.proposed(proposals), q, proposal),
{
    let given = was.next.push(proposals);
    let now = was.proposed(proposals);
    let k = choose|k: int| 0 <= k < given[q].len() && given[q][k] == proposal;
    if was.predictors() > 1 {
        let m = was.all[q].len() + k;
        assert(now.pool(q)[m] == proposal);
    } else {
        assert(now.pool(q)[k] == proposal);
    }
}

proof fn lemma_handed_in_is_tried_or_waits(
    settings: COPRO,
    program: Seq<PredictorModel>,
    events: Seq<Event>,
    i: int,
    k: int,
)
    requires
        orderly(settings, program, events),
        0 < program.len() <= usize::MAX,
        settings.depth > 0,
        forall|m: int, q: int|
            0 <= m <= events.len() ==> (#[trigger] ascended(
                settings,
                program,
                events.take(m),
            ).pool(q)).len() <= usize::MAX,
        0 <= i < events.len(),
        0 <= k < handed_in(events[i]).len(),
    ensures
        ({
            let q = asked_about(ascended(settings, program, events.take(i)));
            let proposal = handed_in(events[i])[k];
            tried(programs_scored(settings, program, events), q, proposal) || waits(
                ascended(settings, program, events),
                q,
                proposal,
            )
        }),
    decreases events.len(),
{
    let earlier = events.drop_last();
    let was = ascended(settings, program, earlier);
    let now = ascended(settings, program, events);
    let q = asked_about(ascended(settings, program, events.take(i)));
    let proposal = handed_in(events[i])[k];
    lemma_in_step(settings, program, earlier);
    if i == events.len() - 1 {
        assert(events.take(i) =~= earlier);
        match events.last() {
            Event::Seeded { proposals } => {
                let pool = proposals.push(was.originals[q]);
                assert(pool[k] == proposal);
                assert(now.latest[q] == pool);
                assert(now.all[q] == pool);
                if now.stage is Scoring && q == 0 {
                    assert(now.pool(0)[k] == proposal);
                }
            },
            Event::Proposed { proposals } => {
                let given = was.next.push(proposals);
                assert(given[q] == proposals);
                assert(given[q][k] == proposal);
                if now.stage is Scoring {
                    lemma_gathered_is_pooled(was, proposals, q, proposal);
                }
            },
            _ => {},
        }
    } else {
        assert(earlier.take(i) =~= events.take(i));
        assert(earlier[i] == events[i]);
        assert forall|m: int, p: int| 0 <= m <= earlier.len() implies (#[trigger] ascended(
            settings,
            program,
            earlier.take(m),
        ).pool(p)).len() <= usize::MAX by {
            assert(earlier.take(m) =~= events.take(m));
            assert(ascended(settings, program, events.take(m)).pool(p).len() <= usize::MAX);
        }
        lemma_handed_in_is_tried_or_waits(settings, program, earlier, i, k);
        let before = programs_scored(settings, program, earlier);
        let log = programs_scored(settings, program, events);
        if tried(before, q, proposal) {
            let j = choose|j: int|
                0 <= j < before.len() && (#[trigger] before[j]).0[q] == bare(proposal.instruction);
            assert(log[j] == before[j]);
        } else {
            assert(events.take(earlier.len() as int) =~= earlier);
            assert(ascended(settings, program, events.take(earlier.len() as int)).pool(
                was.stage->Scoring_predictor as int,
            ).len() <= usize::MAX);
            lemma_waiting_is_tried(
                was,
                events.last(),
                seedings(earlier),
                further_proposals(earlier),
                q,
                proposal,
            );
            if !waits(now, q, proposal) {
                assert(log[before.len() as int].0[q] == bare(proposal.instruction));
            }
        }
    }
}

/// Every proposal handed in during a run is scored before the run is over, in the predictor it was
/// made for. The lists of proposals are as long as a list can be at most.
pub proof fn law_every_proposal_is_scored(
    settings: COPRO,
    program: Seq<PredictorModel>,
    events: Seq<Event>,
    i: int,
    k: int,
)
    requires
        orderly(settings, program, events),
        program.len() <= usize::MAX,
        settings.depth > 0,
        forall|m: int, q: int|
            0 <= m <= events.len() ==> (#[trigger] ascended(
                settings,
                program,
                events.take(m),
            ).pool(q)).len() <= usize::MAX,
        ascended(settings, program, events).stage is Done,
        0 <= i < events.len(),
        0 <= k < handed_in(events[i]).len(),
    ensures
        tried(
            programs_scored(settings, program, events),
            asked_about(ascended(settings, program, events.take(i))),
            handed_in(events[i])[k],
        ),
{
    if program.len() == 0 {
        lemma_nothing_to_rewrite(settings, program, events);
    } else {
        lemma_handed_in_is_tried_or_waits(settings, program, events, i, k);
    }
}

proof fn lemma_nothing_to_rewrite(
    settings: COPRO,
    program: Seq<PredictorModel>,
    events: Seq<Event>,
)
    requires
        orderly(settings, program, events),
        program.len() == 0,
    ensures
        events.len() == 0,
        ascended(settings, program, events).stage is Done,
    decreases events.len(),
{
    if events.len() > 0 {
        lemma_nothing_to_rewrite(settings, program, events.drop_last());
    }
}

/// A run that is over asked for first proposals once per predictor, and for further ones once per
/// predictor between any two of its `depth` rounds.
pub proof fn law_every_round_is_run(
    settings: COPRO,
    program: Seq<PredictorModel>,
    events: Seq<Event>,
)
    requires
        orderly(settings, program, events),
        0 < program.len() <= usize::MAX,
        settings.depth > 0,
        ascended(settings, program, events).stage is Done,
    ensures
        seedings(events) == program.len(),
        further_proposals(events) == program.len() * (settings.depth - 1),
{
    lemma_in_step(settings, program, events);
}

/// What a run records of a predictor's round: the scores of the last `breadth` candidates of its pool
/// as the newest, the ten highest it has seen as the best, and one call for every score.
pub proof fn law_a_round_is_recorded_when_it_is_settled(ascent: AscentModel, score: Double)
    requires
        ascent.well_formed(),
        ascent.stage is Scoring,
        ascent.stats.total_calls < usize::MAX,
    ensures
        ({
            let p = ascent.stage->Scoring_predictor as int;
            let at = ascent.stage->Scoring_at as int;
            let round = ascent.stage->Scoring_round;
            let tried = ascent.scored(score);
            let after = ascent.settled();
            &&& tried.stats.total_calls == ascent.stats.total_calls + 1
            &&& at + ascent.settings.breadth >= ascent.pool(p).len() ==> tried.newest
                == ascent.newest.push(score)
            &&& at + ascent.settings.breadth < ascent.pool(p).len() ==> tried.newest
                == ascent.newest
            &&& after.newest.len() == 0
            &&& after.stats.total_calls == ascent.stats.total_calls
            &&& after.stats.latest[p] == with_round(ascent.stats.latest[p], round, ascent.newest)
            &&& after.stats.best[p] == with_round(
                ascent.stats.best[p],
                round,
                highest_ten(scores_in(ascent.evaluated[p])),
            )
            &&& after.current[p] == best_of(ascent.evaluated[p]).instruction
        }),
{
}

/// Every predictor with an instruction carries it, and nothing else of any predictor changes.
pub proof fn law_each_predictor_carries_its_instruction(
    program: Seq<PredictorModel>,
    instructions: Seq<Seq<char>>,
    i: int,
)
    requires
        0 <= i < program.len(),
    ensures
        ({
            let after = instructed(program, instructions);
            &&& after.len() == program.len()
            &&& i < instructions.len() ==> after[i].signature.instructions == instructions[i]
            &&& i >= instructions.len() ==> after[i] == program[i]
            &&& after[i].name == program[i].name
            &&& after[i].demos == program[i].demos
            &&& after[i].config == program[i].config
            &&& after[i].signature.inputs == program[i].signature.inputs
            &&& after[i].signature.outputs == program[i].signature.outputs
        }),
{
}

/// What a program starts from: each predictor's own instruction, with the words its last answer is
/// asked for under.
pub proof fn law_the_originals_are_the_programs_own(program: Seq<PredictorModel>, i: int)
    requires
        0 <= i < program.len(),
    ensures
        originals_of(program).len() == program.len(),
        originals_of(program)[i].instruction == program[i].signature.instructions,
        program[i].signature.outputs.len() > 0 ==> originals_of(program)[i].prefix
            == crate::signature::prefix_words(program[i].signature.outputs.last().name) + ":"@,
        program[i].signature.outputs.len() == 0 ==> originals_of(program)[i].prefix.len() == 0,
{
}

/// One round's candidates go behind those of the rounds before, predictor by predictor.
pub proof fn law_candidates_are_added_predictor_by_predictor(
    all: Seq<Seq<ProposalModel>>,
    next: Seq<Seq<ProposalModel>>,
    i: int,
    k: int,
)
    requires
        0 <= i < all.len(),
    ensures
        extended(all, next).len() == all.len(),
        extended(all, next)[i].len() == all[i].len() + next[i].len(),
        0 <= k < all[i].len() ==> extended(all, next)[i][k] == all[i][k],
        0 <= k < next[i].len() ==> extended(all, next)[i][all[i].len() + k] == next[i][k],
{
}

} // verus!
