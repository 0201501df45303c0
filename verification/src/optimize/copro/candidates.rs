//! The bookkeeping of a coordinate ascent over instructions: the pairs of instruction and prefix
//! a model proposed, what each scored, and the orders they are read back in.
use vstd::prelude::*;
use vstd::string::StringExecFns;
use crate::double::{exceeds, is_nan, total_rank, Double};
use crate::duplicate::{append, append_all, Duplicate};
use crate::example::{Prediction, PredictionModel};
use crate::optimize::draw::{least, lesser};
use crate::optimize::leader::{law_the_leader_is_the_first_highest, leader};
use crate::optimize::ranking::{is_ranking, ranked, ranking, By};
use crate::program::{PredictorModel, Program};
use crate::signature::{infer_prefix, prefix_words};
use crate::text::{decimal, decimal_text, same_text, trim, trim_matches, trimmed, unwrapped};

verus! {

/// One pair of instruction and output prefix a model proposed, as it wrote them.
#[derive(Debug)]
pub struct Proposal {
    pub instruction: String,
    pub prefix: String,
}

/// What a [`Proposal`] holds.
#[verifier::ext_equal]
pub struct ProposalModel {
    pub instruction: Seq<char>,
    pub prefix: Seq<char>,
}

impl DeepView for Proposal {
    type V = ProposalModel;

    open spec fn deep_view(&self) -> ProposalModel {
        ProposalModel { instruction: self.instruction@, prefix: self.prefix@ }
    }
}

impl Duplicate for Proposal {
    fn duplicate(&self) -> (r: Self) {
        Proposal { instruction: self.instruction.clone(), prefix: self.prefix.clone() }
    }
}

/// A text without the quote marks around it, and then without the white space.
pub open spec fn bare(raw: Seq<char>) -> Seq<char> {
    trimmed(unwrapped(raw, '"'))
}

/// [`bare`], computed.
pub fn stripped(raw: &str) -> (r: String)
    ensures
        r@ == bare(raw@),
{
    let unquoted = trim_matches(raw, '"');
    trim(unquoted.as_str())
}

/// What a reply proposes: its two output fields, a missing one read as empty.
pub open spec fn proposed_in(reply: PredictionModel) -> ProposalModel {
    ProposalModel {
        instruction: reply.example.text("proposed_instruction"@),
        prefix: reply.example.text("proposed_prefix_for_output_field"@),
    }
}

/// [`proposed_in`], computed.
pub fn proposal_of(prediction: &Prediction) -> (r: Proposal)
    ensures
        r.deep_view() == proposed_in(prediction.deep_view()),
{
    Proposal {
        instruction: prediction.example.text("proposed_instruction"),
        prefix: prediction.example.text("proposed_prefix_for_output_field"),
    }
}

/// The instruction of a predictor and the prefix of its last output field.
pub open spec fn original_of(predictor: PredictorModel) -> ProposalModel {
    let outputs = predictor.signature.outputs;
    ProposalModel {
        instruction: predictor.signature.instructions,
        prefix: if outputs.len() == 0 {
            Seq::empty()
        } else {
            prefix_words(outputs.last().name) + ":"@
        },
    }
}

/// [`original_of`] each predictor.
pub open spec fn originals_of(program: Seq<PredictorModel>) -> Seq<ProposalModel> {
    Seq::new(program.len(), |i: int| original_of(program[i]))
}

/// Each predictor's instruction and the prefix of its last output field, which a search starts
/// from.
pub fn originals(student: &Program) -> (r: Vec<Proposal>)
    ensures
        r.deep_view() == originals_of(student.deep_view()),
{
    let mut r: Vec<Proposal> = Vec::new();
    let ghost all = originals_of(student.deep_view());
    proof {
        assert(r.deep_view() =~= all.take(0));
    }
    let mut i: usize = 0;
    while i < student.predictors.len()
        invariant
            i <= student.deep_view().len(),
            all == originals_of(student.deep_view()),
            r.deep_view() == all.take(i as int),
        decreases student.deep_view().len() - i,
    {
        let signature = &student.predictors[i].signature;
        let prefix = if signature.outputs.len() == 0 {
            let none: String = String::new();
            proof {
                assert(none@ =~= Seq::empty());
            }
            none
        } else {
            let last = &signature.outputs[signature.outputs.len() - 1];
            let mut prefix = infer_prefix(last.name.as_str());
            prefix.append(":");
            prefix
        };
        let original = Proposal { instruction: signature.instructions.clone(), prefix };
        proof {
            let predictor = student.deep_view()[i as int];
            assert(predictor.signature.outputs.len() == signature.outputs@.len());
            assert(original.deep_view() == original_of(predictor));
        }
        append(&mut r, original);
        proof {
            assert(all.take(i + 1) =~= all.take(i as int).push(all[i as int]));
        }
        i = i + 1;
    }
    proof {
        assert(all.take(i as int) =~= all);
    }
    r
}

/// One scored candidate: its instruction and prefix, cleaned, and the instructions of the whole
/// program as they stood when it was scored.
#[derive(Debug)]
pub struct Evaluated {
    pub instruction: String,
    pub prefix: String,
    pub score: Double,
    /// One instruction per predictor.
    pub program: Vec<String>,
}

/// What an [`Evaluated`] holds.
#[verifier::ext_equal]
pub struct EvaluatedModel {
    pub instruction: Seq<char>,
    pub prefix: Seq<char>,
    pub score: Double,
    pub program: Seq<Seq<char>>,
}

impl DeepView for Evaluated {
    type V = EvaluatedModel;

    open spec fn deep_view(&self) -> EvaluatedModel {
        EvaluatedModel {
            instruction: self.instruction@,
            prefix: self.prefix@,
            score: self.score,
            program: self.program.deep_view(),
        }
    }
}

impl Duplicate for Evaluated {
    fn duplicate(&self) -> (r: Self) {
        Evaluated {
            instruction: self.instruction.clone(),
            prefix: self.prefix.clone(),
            score: self.score,
            program: self.program.duplicate(),
        }
    }
}

/// Every candidate scored for one predictor, in the order each was first tried.
#[derive(Debug)]
pub struct Evaluations {
    pub entries: Vec<Evaluated>,
}

impl DeepView for Evaluations {
    type V = Seq<EvaluatedModel>;

    open spec fn deep_view(&self) -> Seq<EvaluatedModel> {
        self.entries.deep_view()
    }
}

impl Default for Evaluations {
    fn default() -> (r: Self)
        ensures
            r.deep_view() == Seq::<EvaluatedModel>::empty(),
    {
        let r = Evaluations { entries: Vec::new() };
        proof {
            assert(r.deep_view() =~= Seq::<EvaluatedModel>::empty());
        }
        r
    }
}

/// Whether two candidates are the same pair of instruction and prefix.
pub open spec fn same_pair(a: EvaluatedModel, b: EvaluatedModel) -> bool {
    a.instruction == b.instruction && a.prefix == b.prefix
}

/// Where a candidate's pair stands, or the end where it is new.
pub open spec fn place(entries: Seq<EvaluatedModel>, candidate: EvaluatedModel) -> int
    decreases entries.len(),
{
    if entries.len() == 0 {
        0
    } else if place(entries.drop_last(), candidate) < entries.len() - 1 {
        place(entries.drop_last(), candidate)
    } else if same_pair(entries.last(), candidate) {
        entries.len() - 1
    } else {
        entries.len() as int
    }
}

/// A pair tried before is overwritten only by a higher score, where it stands; a new one is added
/// at the end.
pub open spec fn recorded(
    entries: Seq<EvaluatedModel>,
    candidate: EvaluatedModel,
) -> Seq<EvaluatedModel> {
    let at = place(entries, candidate);
    if at == entries.len() {
        entries.push(candidate)
    } else if exceeds(candidate.score, entries[at].score) {
        entries.update(at, candidate)
    } else {
        entries
    }
}

/// What each candidate scored.
pub open spec fn scores_in(entries: Seq<EvaluatedModel>) -> Seq<Double> {
    Seq::new(entries.len(), |i: int| entries[i].score)
}

/// The candidate an ascent moves to: the highest score, the earliest where several share it.
pub open spec fn best_of(entries: Seq<EvaluatedModel>) -> EvaluatedModel {
    entries[leader(scores_in(entries))]
}

/// The three lines that show one attempt.
pub open spec fn attempt_lines(
    number: nat,
    candidate: EvaluatedModel,
    score_text: Seq<char>,
) -> Seq<Seq<char>> {
    seq![
        "Instruction #"@ + decimal(number) + ": "@ + candidate.instruction,
        "Prefix #"@ + decimal(number) + ": "@ + candidate.prefix,
        "Resulting Score #"@ + decimal(number) + ": "@ + score_text,
    ]
}

/// The lines of the first `count` attempts shown, of the `shown` highest ranked, lowest score
/// first.
pub open spec fn shown_lines(
    entries: Seq<EvaluatedModel>,
    score_texts: Seq<Seq<char>>,
    shown: nat,
    count: nat,
) -> Seq<Seq<char>>
    decreases count,
{
    if count == 0 {
        Seq::empty()
    } else {
        let at = ranked(By::Total, scores_in(entries))[shown - count] as int;
        shown_lines(entries, score_texts, shown, (count - 1) as nat) + attempt_lines(
            count,
            entries[at],
            score_texts[at],
        )
    }
}

/// The block a model is shown of what was tried: the `breadth` highest scores, lowest first and
/// numbered from one.
pub open spec fn attempts_block(
    entries: Seq<EvaluatedModel>,
    score_texts: Seq<Seq<char>>,
    breadth: nat,
) -> Seq<Seq<char>> {
    let shown = least(breadth, entries.len());
    shown_lines(entries, score_texts, shown, shown)
}

proof fn lemma_place(entries: Seq<EvaluatedModel>, candidate: EvaluatedModel)
    ensures
        0 <= place(entries, candidate) <= entries.len(),
        forall|i: int|
            0 <= i < place(entries, candidate) ==> !same_pair(#[trigger] entries[i], candidate),
        place(entries, candidate) < entries.len() ==> same_pair(
            entries[place(entries, candidate)],
            candidate,
        ),
    decreases entries.len(),
{
    if entries.len() > 0 {
        let before = entries.drop_last();
        lemma_place(before, candidate);
        assert forall|i: int| 0 <= i < place(entries, candidate) implies !same_pair(
            #[trigger] entries[i],
            candidate,
        ) by {
            if i < before.len() {
                assert(before[i] == entries[i]);
            }
        }
    }
}

proof fn lemma_place_is_first(entries: Seq<EvaluatedModel>, candidate: EvaluatedModel, at: int)
    requires
        0 <= at <= entries.len(),
        forall|i: int| 0 <= i < at ==> !same_pair(#[trigger] entries[i], candidate),
        at < entries.len() ==> same_pair(entries[at], candidate),
    ensures
        place(entries, candidate) == at,
{
    lemma_place(entries, candidate);
    let found = place(entries, candidate);
    if found < at {
        assert(!same_pair(entries[found], candidate));
    } else if at < found {
        assert(!same_pair(entries[at], candidate));
    }
}

/// A recording adds at most one entry, and every entry after it is an earlier one or the new one.
pub proof fn lemma_recorded(entries: Seq<EvaluatedModel>, candidate: EvaluatedModel)
    ensures
        recorded(entries, candidate).len() > 0,
        recorded(entries, candidate).len() >= entries.len(),
        forall|k: int|
            0 <= k < recorded(entries, candidate).len() ==> #[trigger] recorded(
                entries,
                candidate,
            )[k] == candidate || (k < entries.len() && recorded(entries, candidate)[k]
                == entries[k]),
{
    lemma_place(entries, candidate);
}

impl Evaluations {
    /// Takes in a scored candidate. A pair tried before keeps its place, and its score unless the
    /// new one is higher.
    pub fn record(&mut self, candidate: Evaluated)
        ensures
            final(self).deep_view() == recorded(old(self).deep_view(), candidate.deep_view()),
    {
        let ghost entries = self.deep_view();
        let ghost new = candidate.deep_view();
        let mut at: usize = 0;
        while at < self.entries.len() && !(same_text(
            self.entries[at].instruction.as_str(),
            candidate.instruction.as_str(),
        ) && same_text(self.entries[at].prefix.as_str(), candidate.prefix.as_str()))
            invariant
                at <= self.entries@.len(),
                self.deep_view() == entries,
                new == candidate.deep_view(),
                forall|i: int| 0 <= i < at ==> !same_pair(#[trigger] entries[i], new),
            decreases self.entries@.len() - at,
        {
            proof {
                assert(!same_pair(entries[at as int], new));
            }
            at = at + 1;
        }
        proof {
            lemma_place_is_first(entries, new, at as int);
        }
        if at == self.entries.len() {
            append(&mut self.entries, candidate);
        } else if candidate.score.exceeds(self.entries[at].score) {
            self.entries.set(at, candidate);
            proof {
                assert(self.deep_view() =~= entries.update(at as int, new));
            }
        }
    }

    /// Every candidate's score, in the order they were first tried.
    pub fn scores(&self) -> (r: Vec<Double>)
        ensures
            r@ == scores_in(self.deep_view()),
    {
        let mut r: Vec<Double> = Vec::new();
        let mut i: usize = 0;
        while i < self.entries.len()
            invariant
                i <= self.entries@.len(),
                r@ =~= scores_in(self.deep_view()).take(i as int),
            decreases self.entries@.len() - i,
        {
            r.push(self.entries[i].score);
            i = i + 1;
        }
        proof {
            assert(r@ =~= scores_in(self.deep_view()));
        }
        r
    }

    /// The highest-scoring candidate, the earliest one on a tie.
    pub fn best(&self) -> (r: &Evaluated)
        requires
            self.deep_view().len() > 0,
        ensures
            r.deep_view() == best_of(self.deep_view()),
    {
        let mut held: usize = 0;
        let mut i: usize = 1;
        let ghost scores = scores_in(self.deep_view());
        while i < self.entries.len()
            invariant
                1 <= i <= self.entries@.len(),
                held < i,
                scores == scores_in(self.deep_view()),
                held == leader(scores.take(i as int)),
            decreases self.entries@.len() - i,
        {
            proof {
                assert(scores.take(i + 1).drop_last() =~= scores.take(i as int));
            }
            if self.entries[i].score.exceeds(self.entries[held].score) {
                held = i;
            }
            i = i + 1;
        }
        proof {
            assert(scores.take(i as int) =~= scores);
            assert(self.deep_view()[held as int] == self.entries@[held as int].deep_view());
        }
        &self.entries[held]
    }

    /// The block the next round is shown: the `breadth` highest scores, lowest first, each as its
    /// instruction, prefix and score. `score_texts` is how each score prints.
    pub fn attempts(&self, breadth: usize, score_texts: &Vec<String>) -> (r: Vec<String>)
        requires
            score_texts@.len() == self.deep_view().len(),
        ensures
            r.deep_view() == attempts_block(
                self.deep_view(),
                score_texts.deep_view(),
                breadth as nat,
            ),
    {
        let scores = self.scores();
        let order = ranking(By::Total, &scores);
        let shown: usize = lesser(breadth, self.entries.len());
        let mut lines: Vec<String> = Vec::new();
        let mut number: usize = 0;
        proof {
            assert(lines.deep_view() =~= shown_lines(
                self.deep_view(),
                score_texts.deep_view(),
                shown as nat,
                0,
            ));
        }
        while number < shown
            invariant
                number <= shown <= self.entries@.len(),
                score_texts@.len() == self.deep_view().len(),
                order@ == ranked(By::Total, scores_in(self.deep_view())),
                is_ranking(By::Total, scores_in(self.deep_view()), order@),
                lines.deep_view() == shown_lines(
                    self.deep_view(),
                    score_texts.deep_view(),
                    shown as nat,
                    number as nat,
                ),
            decreases shown - number,
        {
            number = number + 1;
            let at: usize = order[shown - number];
            let candidate = &self.entries[at];
            let text = decimal_text(number);
            let mut block: Vec<String> = Vec::new();
            let mut line: String = "Instruction #".to_owned();
            line.append(text.as_str());
            line.append(": ");
            line.append(candidate.instruction.as_str());
            append(&mut block, line);
            let mut line: String = "Prefix #".to_owned();
            line.append(text.as_str());
            line.append(": ");
            line.append(candidate.prefix.as_str());
            append(&mut block, line);
            let mut line: String = "Resulting Score #".to_owned();
            line.append(text.as_str());
            line.append(": ");
            line.append(score_texts[at].as_str());
            append(&mut block, line);
            proof {
                assert(block.deep_view() =~= attempt_lines(
                    number as nat,
                    self.deep_view()[at as int],
                    score_texts.deep_view()[at as int],
                ));
            }
            append_all(&mut lines, &block);
        }
        lines
    }
}

/// The candidates of every predictor, in predictor order.
pub open spec fn all_evaluated(predictors: Seq<Seq<EvaluatedModel>>) -> Seq<EvaluatedModel>
    decreases predictors.len(),
{
    if predictors.len() == 0 {
        Seq::empty()
    } else {
        all_evaluated(predictors.drop_last()) + predictors.last()
    }
}

/// The instructions a search ends on: those in force when the highest score was made, the earliest
/// such score on a tie.
pub open spec fn winning_program(predictors: Seq<Seq<EvaluatedModel>>) -> Option<Seq<Seq<char>>> {
    let all = all_evaluated(predictors);
    if all.len() == 0 {
        None
    } else {
        Some(all[ranked(By::Total, scores_in(all))[0] as int].program)
    }
}

/// [`winning_program`], computed.
pub fn best_program(predictors: &Vec<Evaluations>) -> (r: Option<Vec<String>>)
    ensures
        r.deep_view() == winning_program(predictors.deep_view()),
{
    let mut all = Evaluations::default();
    let ghost parts = predictors.deep_view();
    let mut i: usize = 0;
    while i < predictors.len()
        invariant
            i <= predictors@.len(),
            parts == predictors.deep_view(),
            all.deep_view() == all_evaluated(parts.take(i as int)),
        decreases predictors@.len() - i,
    {
        proof {
            assert(parts.take(i + 1).drop_last() =~= parts.take(i as int));
        }
        append_all(&mut all.entries, &predictors[i].entries);
        i = i + 1;
    }
    proof {
        assert(parts.take(i as int) =~= parts);
    }
    if all.entries.len() == 0 {
        return None;
    }
    let scores = all.scores();
    let order = ranking(By::Total, &scores);
    let first: usize = order[0];
    proof {
        assert(all.deep_view()[first as int] == all.entries@[first as int].deep_view());
    }
    Some(all.entries[first].program.duplicate())
}

/// After a recording, the score held where the candidate stands is a number no lower than the
/// candidate's, where the one held before was a number.
pub proof fn lemma_held_after(entries: Seq<EvaluatedModel>, candidate: EvaluatedModel)
    requires
        !is_nan(candidate.score),
        forall|k: int| 0 <= k < entries.len() ==> !is_nan((#[trigger] entries[k]).score),
    ensures
        0 <= place(entries, candidate) < recorded(entries, candidate).len(),
        !exceeds(
            candidate.score,
            recorded(entries, candidate)[place(entries, candidate)].score,
        ),
        !is_nan(recorded(entries, candidate)[place(entries, candidate)].score),
{
    lemma_place(entries, candidate);
}

/// Every candidate of every predictor is listed among all.
pub proof fn lemma_is_listed(predictors: Seq<Seq<EvaluatedModel>>, q: int, k: int) -> (at: int)
    requires
        0 <= q < predictors.len(),
        0 <= k < predictors[q].len(),
    ensures
        0 <= at < all_evaluated(predictors).len(),
        all_evaluated(predictors)[at] == predictors[q][k],
    decreases predictors.len(),
{
    let before = predictors.drop_last();
    if q == predictors.len() - 1 {
        all_evaluated(before).len() + k
    } else {
        lemma_is_listed(before, q, k)
    }
}

/// Every candidate listed among all is some predictor's.
pub proof fn lemma_a_listed_one_is_held(predictors: Seq<Seq<EvaluatedModel>>, at: int)
    requires
        0 <= at < all_evaluated(predictors).len(),
    ensures
        exists|q: int, k: int|
            0 <= q < predictors.len() && 0 <= k < predictors[q].len()
                && #[trigger] predictors[q][k] == all_evaluated(predictors)[at],
    decreases predictors.len(),
{
    let before = predictors.drop_last();
    let listed = all_evaluated(before).len();
    if at < listed {
        lemma_a_listed_one_is_held(before, at);
        let (q, k) = choose|q: int, k: int|
            0 <= q < before.len() && 0 <= k < before[q].len() && #[trigger] before[q][k]
                == all_evaluated(before)[at];
        assert(predictors[q][k] == before[q][k]);
    } else {
        let q = predictors.len() - 1;
        assert(predictors[q][at - listed] == all_evaluated(predictors)[at]);
    }
}

/// Whether no pair of instruction and prefix is held twice.
pub open spec fn pairs_distinct(entries: Seq<EvaluatedModel>) -> bool {
    forall|i: int, j: int|
        0 <= i < j < entries.len() ==> !same_pair(#[trigger] entries[i], #[trigger] entries[j])
}

/// Recording a candidate keeps every pair once, drops no pair, and moves none.
pub proof fn law_recording_keeps_pairs_in_place(
    entries: Seq<EvaluatedModel>,
    candidate: EvaluatedModel,
    i: int,
)
    requires
        pairs_distinct(entries),
        0 <= i < entries.len(),
    ensures
        pairs_distinct(recorded(entries, candidate)),
        entries.len() <= recorded(entries, candidate).len() <= entries.len() + 1,
        same_pair(recorded(entries, candidate)[i], entries[i]),
{
    lemma_place(entries, candidate);
}

/// A recorded candidate's pair of instruction and prefix is held afterwards, and a score that no
/// held one of its pair reaches is held with it.
pub proof fn law_a_recorded_pair_is_held(entries: Seq<EvaluatedModel>, candidate: EvaluatedModel)
    ensures
        exists|e: int|
            0 <= e < recorded(entries, candidate).len() && (#[trigger] recorded(
                entries,
                candidate,
            )[e]).instruction == candidate.instruction && recorded(entries, candidate)[e].prefix
                == candidate.prefix,
        (forall|k: int|
            0 <= k < entries.len() && (#[trigger] entries[k]).instruction == candidate.instruction
                && entries[k].prefix == candidate.prefix ==> exceeds(
                candidate.score,
                entries[k].score,
            )) ==> recorded(entries, candidate).contains(candidate),
{
    lemma_place(entries, candidate);
    let at = place(entries, candidate);
    let after = recorded(entries, candidate);
    assert(same_pair(after[at], candidate));
    assert(after[at].instruction == candidate.instruction);
    if forall|k: int|
        0 <= k < entries.len() && (#[trigger] entries[k]).instruction == candidate.instruction
            && entries[k].prefix == candidate.prefix ==> exceeds(candidate.score, entries[k].score) {
        if at < entries.len() {
            assert(exceeds(candidate.score, entries[at].score));
        }
        assert(after[at] == candidate);
    }
}

/// A model asked for more is shown three lines for each of the `breadth` highest-scoring candidates,
/// or of all where there are fewer: its instruction, its prefix and its score, numbered from one.
/// The candidate numbered last is the highest.
pub proof fn law_the_best_attempts_are_shown(
    entries: Seq<EvaluatedModel>,
    score_texts: Seq<Seq<char>>,
    breadth: nat,
    order: Seq<usize>,
    number: nat,
)
    requires
        is_ranking(By::Total, scores_in(entries), order),
        1 <= number <= breadth,
        number <= entries.len(),
    ensures
        ({
            let shown = if breadth <= entries.len() {
                breadth as int
            } else {
                entries.len() as int
            };
            let block = attempts_block(entries, score_texts, breadth);
            let at = order[shown - number] as int;
            &&& block.len() == 3 * shown
            &&& block[3 * number - 3] == "Instruction #"@ + decimal(number) + ": "@
                + entries[at].instruction
            &&& block[3 * number - 2] == "Prefix #"@ + decimal(number) + ": "@ + entries[at].prefix
            &&& block[3 * number - 1] == "Resulting Score #"@ + decimal(number) + ": "@
                + score_texts[at]
        }),
{
    crate::optimize::ranking::law_a_ranking_is_unique(
        By::Total,
        scores_in(entries),
        order,
        ranked(By::Total, scores_in(entries)),
    );
    let shown = least(breadth, entries.len());
    lemma_shown_lines(entries, score_texts, shown, shown, number);
}

proof fn lemma_shown_lines(
    entries: Seq<EvaluatedModel>,
    score_texts: Seq<Seq<char>>,
    shown: nat,
    count: nat,
    number: nat,
)
    requires
        1 <= number <= count <= shown,
    ensures
        ({
            let at = ranked(By::Total, scores_in(entries))[shown - number] as int;
            let lines = shown_lines(entries, score_texts, shown, count);
            &&& lines.len() == 3 * count
            &&& lines[3 * number - 3] == "Instruction #"@ + decimal(number) + ": "@
                + entries[at].instruction
            &&& lines[3 * number - 2] == "Prefix #"@ + decimal(number) + ": "@ + entries[at].prefix
            &&& lines[3 * number - 1] == "Resulting Score #"@ + decimal(number) + ": "@
                + score_texts[at]
        }),
    decreases count,
{
    let before = shown_lines(entries, score_texts, shown, (count - 1) as nat);
    if number < count {
        lemma_shown_lines(entries, score_texts, shown, (count - 1) as nat, number);
    } else if count > 1 {
        lemma_shown_lines(entries, score_texts, shown, (count - 1) as nat, 1);
    } else {
        assert(before.len() == 0);
    }
}

/// A pair's score never falls: after a recording, the score held for it is no lower than the one
/// held before, nor than the one recorded.
pub proof fn law_a_recorded_score_never_falls(
    entries: Seq<EvaluatedModel>,
    candidate: EvaluatedModel,
    i: int,
)
    requires
        0 <= i < entries.len(),
        !is_nan(candidate.score),
        !is_nan(entries[i].score),
    ensures
        !exceeds(entries[i].score, recorded(entries, candidate)[i].score),
        i == place(entries, candidate) ==> !exceeds(
            candidate.score,
            recorded(entries, candidate)[i].score,
        ),
{
    lemma_place(entries, candidate);
}

/// The candidate an ascent moves to is exceeded by no other, and ties with no earlier one.
pub proof fn law_the_best_is_the_earliest_highest(entries: Seq<EvaluatedModel>, i: int)
    requires
        0 <= i < entries.len(),
        forall|k: int| 0 <= k < entries.len() ==> !is_nan((#[trigger] entries[k]).score),
    ensures
        !exceeds(entries[i].score, best_of(entries).score),
        i < leader(scores_in(entries)) ==> exceeds(best_of(entries).score, entries[i].score),
{
    law_the_leader_is_the_first_highest(scores_in(entries), i);
    assert(!is_nan(entries[0].score));
}

/// Attempts are shown in increasing order of score: of two that are shown, the one with the higher
/// number scored no lower.
pub proof fn law_attempts_are_shown_in_increasing_order(
    entries: Seq<EvaluatedModel>,
    order: Seq<usize>,
    shown: nat,
    a: nat,
    b: nat,
)
    requires
        is_ranking(By::Total, scores_in(entries), order),
        shown <= entries.len(),
        1 <= a <= b <= shown,
    ensures
        order == ranked(By::Total, scores_in(entries)),
        total_rank(entries[order[shown - a] as int].score) <= total_rank(
            entries[order[shown - b] as int].score,
        ),
{
    crate::optimize::ranking::law_a_ranking_is_unique(
        By::Total,
        scores_in(entries),
        order,
        ranked(By::Total, scores_in(entries)),
    );
    let scores = scores_in(entries);
    assert(scores[order[shown - a] as int] == entries[order[shown - a] as int].score);
    assert(scores[order[shown - b] as int] == entries[order[shown - b] as int].score);
}

/// The program a search ends on was scored as high as any candidate of any predictor.
pub proof fn law_the_search_ends_on_the_highest_score(
    predictors: Seq<Seq<EvaluatedModel>>,
    order: Seq<usize>,
    i: int,
)
    requires
        is_ranking(By::Total, scores_in(all_evaluated(predictors)), order),
        0 <= i < all_evaluated(predictors).len(),
    ensures
        winning_program(predictors) == Some(all_evaluated(predictors)[order[0] as int].program),
        total_rank(all_evaluated(predictors)[i].score) <= total_rank(
            all_evaluated(predictors)[order[0] as int].score,
        ),
{
    let all = all_evaluated(predictors);
    let scores = scores_in(all);
    crate::optimize::ranking::law_a_ranking_is_unique(
        By::Total,
        scores,
        order,
        ranked(By::Total, scores),
    );
    crate::optimize::ranking::lemma_every_position_is_listed(By::Total, scores, order, i);
    let at = choose|at: int| 0 <= at < order.len() && order[at] == i;
    assert(scores[order[at] as int] == all[i].score);
    assert(scores[order[0] as int] == all[order[0] as int].score);
    if at > 0 {
        assert(By::Total.key(scores[order[0] as int]) >= By::Total.key(scores[order[at] as int]));
    }
}

} // verus!
