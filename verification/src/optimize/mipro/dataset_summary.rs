//! Describing a trainset to whoever proposes instructions for it.
//!
//! A model reads the trainset a batch at a time: it observes a first batch, adds to its
//! observations batch by batch, and then cuts the lot down to a summary. At most nine batches follow
//! the first, and five replies that have nothing to add end the reading early.
use vstd::prelude::*;
use vstd::string::StringExecFns;
use crate::duplicate::append;
use crate::optimize::draw::{least, lesser};
use crate::optimize::mipro::proposer::{strip_prefix, unlabelled};
use crate::program::{plain_sampling, Sampling};
use crate::double::Double;
use crate::signature::{
    capital, capital_of, input, output, plain_field, InField, OutField, Signature, SignatureModel,
};
use crate::entries::lookup;
use crate::sorted::{ascending, file, filed, law_filing_keeps_the_order};
use crate::text::{chars_of, join, joined, unwrapped};

verus! {

/// One more than the number of batches read after the first.
pub const MAX_CALLS: usize = 10;

/// How many replies with nothing to add end the reading.
pub const MAX_SKIPS: usize = 5;

/// Asking for observations of a first batch.
pub open spec fn descriptor() -> SignatureModel {
    SignatureModel {
        instructions: "Given several examples from a dataset please write observations about trends that hold for most or all of the samples. Some areas you may consider in your observations: topics, content, syntax, conciseness, etc. It will be useful to make an educated guess as to the nature of the task this dataset will enable. Don't be afraid to be creative"@,
        inputs: seq![plain_field("examples"@, "Sample data points from the dataset"@)],
        outputs: seq![
            plain_field(
                "observations"@,
                "Somethings that holds true for most or all of the data you observed"@,
            ),
        ],
    }
}

/// Asking for more observations, given those already made.
pub open spec fn descriptor_with_prior() -> SignatureModel {
    SignatureModel {
        instructions: "Given several examples from a dataset please write observations about trends that hold for most or all of the samples. I will also provide you with a few observations I have already made.  Please add your own observations or if you feel the observations are comprehensive say 'COMPLETE' Some areas you may consider in your observations: topics, content, syntax, conciceness, etc. It will be useful to make an educated guess as to the nature of the task this dataset will enable. Don't be afraid to be creative"@,
        inputs: seq![
            plain_field("examples"@, "Sample data points from the dataset"@),
            plain_field("prior_observations"@, "Some prior observations I made about the data"@),
        ],
        outputs: seq![
            plain_field(
                "observations"@,
                "Somethings that holds true for most or all of the data you observed or COMPLETE if you have nothing to add"@,
            ),
        ],
    }
}

/// Asking for the observations in two or three sentences.
pub open spec fn summarizer() -> SignatureModel {
    SignatureModel {
        instructions: "Given a series of observations I have made about my dataset, please summarize them into a brief 2-3 sentence summary which highlights only the most important details."@,
        inputs: seq![plain_field("observations"@, "Observations I have made about my dataset"@)],
        outputs: seq![
            plain_field(
                "summary"@,
                "Two to Three sentence summary of only the most significant highlights of my observations"@,
            ),
        ],
    }
}

/// Asking for observations of a first batch.
pub fn dataset_descriptor() -> (r: Signature)
    ensures
        r.deep_view() == descriptor(),
{
    let mut inputs: Vec<InField> = Vec::new();
    append(&mut inputs, input("examples", "Sample data points from the dataset"));
    let mut outputs: Vec<OutField> = Vec::new();
    append(
        &mut outputs,
        output("observations", "Somethings that holds true for most or all of the data you observed"),
    );
    let r = Signature {
        instructions: "Given several examples from a dataset please write observations about trends that hold for most or all of the samples. Some areas you may consider in your observations: topics, content, syntax, conciseness, etc. It will be useful to make an educated guess as to the nature of the task this dataset will enable. Don't be afraid to be creative".to_owned(),
        inputs,
        outputs,
    };
    proof {
        assert(r.deep_view() =~= descriptor());
    }
    r
}

/// Asking for more observations, given those already made.
pub fn dataset_descriptor_with_prior_observations() -> (r: Signature)
    ensures
        r.deep_view() == descriptor_with_prior(),
{
    let mut inputs: Vec<InField> = Vec::new();
    append(&mut inputs, input("examples", "Sample data points from the dataset"));
    append(
        &mut inputs,
        input("prior_observations", "Some prior observations I made about the data"),
    );
    let mut outputs: Vec<OutField> = Vec::new();
    append(
        &mut outputs,
        output(
            "observations",
            "Somethings that holds true for most or all of the data you observed or COMPLETE if you have nothing to add",
        ),
    );
    let r = Signature {
        instructions: "Given several examples from a dataset please write observations about trends that hold for most or all of the samples. I will also provide you with a few observations I have already made.  Please add your own observations or if you feel the observations are comprehensive say 'COMPLETE' Some areas you may consider in your observations: topics, content, syntax, conciceness, etc. It will be useful to make an educated guess as to the nature of the task this dataset will enable. Don't be afraid to be creative".to_owned(),
        inputs,
        outputs,
    };
    proof {
        assert(r.deep_view() =~= descriptor_with_prior());
    }
    r
}

/// Asking for the observations in two or three sentences.
pub fn observation_summarizer() -> (r: Signature)
    ensures
        r.deep_view() == summarizer(),
{
    let mut inputs: Vec<InField> = Vec::new();
    append(&mut inputs, input("observations", "Observations I have made about my dataset"));
    let mut outputs: Vec<OutField> = Vec::new();
    append(
        &mut outputs,
        output(
            "summary",
            "Two to Three sentence summary of only the most significant highlights of my observations",
        ),
    );
    let r = Signature {
        instructions: "Given a series of observations I have made about my dataset, please summarize them into a brief 2-3 sentence summary which highlights only the most important details.".to_owned(),
        inputs,
        outputs,
    };
    proof {
        assert(r.deep_view() =~= summarizer());
    }
    r
}

/// One field of a row as source code shows it.
#[derive(Debug)]
pub struct PrintedField {
    pub name: String,
    /// The name as a string literal.
    pub name_literal: String,
    /// The value as source code.
    pub value_literal: String,
    pub is_input: bool,
}

/// What a [`PrintedField`] holds.
#[verifier::ext_equal]
pub struct PrintedFieldModel {
    pub name: Seq<char>,
    pub name_literal: Seq<char>,
    pub value_literal: Seq<char>,
    pub is_input: bool,
}

impl DeepView for PrintedField {
    type V = PrintedFieldModel;

    open spec fn deep_view(&self) -> PrintedFieldModel {
        PrintedFieldModel {
            name: self.name@,
            name_literal: self.name_literal@,
            value_literal: self.value_literal@,
            is_input: self.is_input,
        }
    }
}

/// Each field as `name: value`.
pub open spec fn field_texts(fields: Seq<PrintedFieldModel>) -> Seq<Seq<char>> {
    Seq::new(fields.len(), |i: int| fields[i].name_literal + ": "@ + fields[i].value_literal)
}

/// The input fields' names, in the order of the names.
pub open spec fn input_keys(fields: Seq<PrintedFieldModel>) -> Seq<(Seq<char>, Seq<char>)>
    decreases fields.len(),
{
    if fields.len() == 0 {
        Seq::empty()
    } else {
        let before = input_keys(fields.drop_last());
        if fields.last().is_input {
            filed(before, fields.last().name, fields.last().name_literal)
        } else {
            before
        }
    }
}

/// The second of each pair.
pub open spec fn seconds(pairs: Seq<(Seq<char>, Seq<char>)>) -> Seq<Seq<char>> {
    Seq::new(pairs.len(), |i: int| pairs[i].1)
}

/// One row as source code.
pub open spec fn example_source(fields: Seq<PrintedFieldModel>) -> Seq<char> {
    "Example({"@ + joined(field_texts(fields), ", "@) + "}) (input_keys={"@ + joined(
        seconds(input_keys(fields)),
        ", "@,
    ) + "})"@
}

/// Several rows as source code.
pub open spec fn examples_source(rows: Seq<Seq<PrintedFieldModel>>) -> Seq<char> {
    "["@ + joined(Seq::new(rows.len(), |i: int| example_source(rows[i])), ", "@) + "]"@
}

fn one_example(fields: &Vec<PrintedField>) -> (r: String)
    ensures
        r@ == example_source(fields.deep_view()),
{
    let ghost model = fields.deep_view();
    let ghost texts = field_texts(model);
    let mut shown: Vec<String> = Vec::new();
    let mut keys: Vec<(String, String)> = Vec::new();
    let mut i: usize = 0;
    proof {
        assert(keys.deep_view() =~= input_keys(model.take(0)));
    }
    while i < fields.len()
        invariant
            i <= fields@.len(),
            model == fields.deep_view(),
            texts == field_texts(model),
            shown.deep_view() =~= texts.take(i as int),
            keys.deep_view() == input_keys(model.take(i as int)),
        decreases fields@.len() - i,
    {
        let field = &fields[i];
        let mut text: String = field.name_literal.clone();
        text.append(": ");
        text.append(field.value_literal.as_str());
        append(&mut shown, text);
        proof {
            assert(model.take(i + 1).drop_last() =~= model.take(i as int));
            assert(model.take(i + 1).last() == field.deep_view());
        }
        if field.is_input {
            file(&mut keys, field.name.clone(), field.name_literal.clone());
        }
        i = i + 1;
    }
    proof {
        assert(model.take(i as int) =~= model);
        assert(texts.take(i as int) =~= texts);
    }
    let mut literals: Vec<String> = Vec::new();
    let ghost wanted = seconds(keys.deep_view());
    let mut k: usize = 0;
    while k < keys.len()
        invariant
            k <= keys@.len(),
            wanted == seconds(keys.deep_view()),
            literals.deep_view() =~= wanted.take(k as int),
        decreases keys@.len() - k,
    {
        append(&mut literals, keys[k].1.clone());
        k = k + 1;
    }
    proof {
        assert(wanted.take(k as int) =~= wanted);
    }
    let mut r: String = "Example({".to_owned();
    r.append(join(&shown, ", ").as_str());
    r.append("}) (input_keys={");
    r.append(join(&literals, ", ").as_str());
    r.append("})");
    r
}

/// Rows as source code, the input keys of each in order.
pub fn examples_repr(rows: &Vec<Vec<PrintedField>>) -> (r: String)
    ensures
        r@ == examples_source(rows.deep_view()),
{
    let ghost model = rows.deep_view();
    let ghost texts = Seq::new(model.len(), |i: int| example_source(model[i]));
    let mut shown: Vec<String> = Vec::new();
    let mut i: usize = 0;
    while i < rows.len()
        invariant
            i <= rows@.len(),
            model == rows.deep_view(),
            texts == Seq::new(model.len(), |i: int| example_source(model[i])),
            shown.deep_view() =~= texts.take(i as int),
        decreases rows@.len() - i,
    {
        append(&mut shown, one_example(&rows[i]));
        i = i + 1;
    }
    proof {
        assert(texts.take(i as int) =~= texts);
    }
    let mut r: String = "[".to_owned();
    r.append(join(&shown, ", ").as_str());
    r.append("]");
    r
}

/// Whether a reply opens with the word that says there is nothing to add, in whatever case.
pub open spec fn completes(reply: Seq<char>) -> bool {
    &&& reply.len() >= 8
    &&& forall|i: int| 0 <= i < 8 ==> capital(#[trigger] reply[i]) == "COMPLETE"@[i]
}

fn says_complete(reply: &str) -> (r: bool)
    ensures
        r == completes(reply@),
{
    let chars = chars_of(reply);
    let wanted = chars_of("COMPLETE");
    proof {
        reveal_strlit("COMPLETE");
    }
    if chars.len() < 8 {
        return false;
    }
    let mut i: usize = 0;
    while i < 8
        invariant
            i <= 8,
            chars@ == reply@,
            chars@.len() >= 8,
            wanted@ == "COMPLETE"@,
            wanted@.len() == 8,
            forall|j: int| 0 <= j < i ==> capital(#[trigger] reply@[j]) == "COMPLETE"@[j],
        decreases 8 - i,
    {
        if capital_of(chars[i]) != wanted[i] {
            proof {
                assert(capital(reply@[i as int]) != "COMPLETE"@[i as int]);
            }
            return false;
        }
        i = i + 1;
    }
    true
}

/// Where a reading stands.
#[derive(Clone, Copy, Debug, PartialEq, Eq, Structural)]
pub enum Reading {
    /// Waiting for observations of the first batch.
    Opening,
    /// Waiting for what this batch adds.
    Batch { number: usize },
    /// Waiting for the summary.
    Summarizing,
    Done,
}

/// A reading of a trainset.
#[derive(Debug)]
pub struct DatasetSummary {
    /// How many rows there are.
    pub rows: usize,
    /// How many rows a batch has.
    pub batch_size: usize,
    pub observations: String,
    pub skips: usize,
    pub summary: String,
    pub stage: Reading,
}

/// What a [`DatasetSummary`] holds.
#[verifier::ext_equal]
pub struct SummaryModel {
    pub rows: usize,
    pub batch_size: usize,
    pub observations: Seq<char>,
    pub skips: usize,
    pub summary: Seq<char>,
    pub stage: Reading,
}

impl DeepView for DatasetSummary {
    type V = SummaryModel;

    open spec fn deep_view(&self) -> SummaryModel {
        SummaryModel {
            rows: self.rows,
            batch_size: self.batch_size,
            observations: self.observations@,
            skips: self.skips,
            summary: self.summary@,
            stage: self.stage,
        }
    }
}

impl SummaryModel {
    /// Where the first batch ends.
    pub open spec fn opening(self) -> nat {
        least(self.batch_size as nat, self.rows as nat)
    }

    /// How many rows a batch after the first has: at least one.
    pub open spec fn step(self) -> nat {
        if self.batch_size == 0 {
            1
        } else {
            self.batch_size as nat
        }
    }

    /// Where a batch after the first starts.
    pub open spec fn start_of(self, number: nat) -> nat {
        self.opening() + number * self.step()
    }

    /// Whether there is such a batch, and it is still read.
    pub open spec fn reads(self, number: nat) -> bool {
        number < 9 && self.start_of(number) < self.rows
    }

    /// The stage in which a batch is read, or that after the last.
    pub open spec fn stage_at(self, number: nat) -> Reading {
        if self.reads(number) {
            Reading::Batch { number: number as usize }
        } else {
            Reading::Summarizing
        }
    }

    /// The rows that are shown next.
    pub open spec fn window(self) -> Option<(nat, nat)> {
        match self.stage {
            Reading::Opening => Some((0, self.opening())),
            Reading::Batch { number } => Some(
                (
                    self.start_of(number as nat),
                    least(self.start_of(number as nat) + self.step(), self.rows as nat),
                ),
            ),
            _ => None,
        }
    }

    /// The first batch was observed.
    pub open spec fn opened(self, observations: Seq<char>) -> SummaryModel {
        SummaryModel { observations, stage: self.stage_at(0), ..self }
    }

    /// A batch was answered. A failure ends the reading; a reply with nothing to add is skipped,
    /// and the fifth such ends it too.
    pub open spec fn answered(self, reply: Option<Seq<char>>) -> SummaryModel {
        match (self.stage, reply) {
            (Reading::Batch { number }, Some(added)) => if completes(added) {
                let skips = (self.skips + 1) as usize;
                SummaryModel {
                    skips,
                    stage: if skips >= 5 {
                        Reading::Summarizing
                    } else {
                        self.stage_at((number + 1) as nat)
                    },
                    ..self
                }
            } else {
                SummaryModel {
                    observations: self.observations + added,
                    stage: self.stage_at((number + 1) as nat),
                    ..self
                }
            },
            _ => SummaryModel { stage: Reading::Summarizing, ..self },
        }
    }

    /// The observations were summarized.
    pub open spec fn summarized(self, reply: Seq<char>) -> SummaryModel {
        SummaryModel {
            summary: unwrapped(unlabelled(reply), '"'),
            stage: Reading::Done,
            ..self
        }
    }

    /// What holds throughout: a batch being read exists, and fewer than five were skipped.
    pub open spec fn well_formed(self) -> bool {
        &&& self.skips <= 5
        &&& match self.stage {
            Reading::Batch { number } => self.reads(number as nat) && self.skips < 5,
            Reading::Opening => self.skips == 0,
            _ => true,
        }
    }
}

/// A summarizing ask runs at temperature one.
pub fn summary_sampling() -> (r: Sampling)
    ensures
        r == (Sampling {
            temperature: Some(Double { bits: 0x3ff0_0000_0000_0000 }),
            ..plain_sampling()
        }),
{
    Sampling { temperature: Some(Double::one()), ..Sampling::default() }
}

impl DatasetSummary {
    /// A reading of that many rows, so many at a time.
    pub fn begin(rows: usize, batch_size: usize) -> (r: DatasetSummary)
        ensures
            r.deep_view() == (SummaryModel {
                rows,
                batch_size,
                observations: Seq::empty(),
                skips: 0,
                summary: Seq::empty(),
                stage: Reading::Opening,
            }),
            r.deep_view().well_formed(),
    {
        let r = DatasetSummary {
            rows,
            batch_size,
            observations: String::new(),
            skips: 0,
            summary: String::new(),
            stage: Reading::Opening,
        };
        proof {
            assert(r.observations@ =~= Seq::empty());
            assert(r.summary@ =~= Seq::empty());
        }
        r
    }

    fn stage_at(&self, number: usize) -> (r: Reading)
        requires
            number <= 9,
        ensures
            r == self.deep_view().stage_at(number as nat),
    {
        let opening: usize = lesser(self.batch_size, self.rows);
        let step: usize = if self.batch_size == 0 {
            1
        } else {
            self.batch_size
        };
        let left: usize = self.rows - opening;
        let reached: bool = number == 0 && left > 0 || number > 0 && left > 0 && step <= (left - 1)
            / number;
        proof {
            let n = number as int;
            let s = step as int;
            let l = left as int;
            if number > 0 && left > 0 {
                assert((s <= (l - 1) / n) == (n * s < l)) by (nonlinear_arith)
                    requires
                        n > 0,
                        l > 0,
                        s >= 0,
                ;
            }
            if number == 0 {
                assert(n * s == 0) by (nonlinear_arith)
                    requires
                        n == 0,
                ;
            } else {
                assert(n * s >= 0) by (nonlinear_arith)
                    requires
                        n >= 0,
                        s >= 0,
                ;
            }
            assert(self.deep_view().start_of(number as nat) == opening + n * s);
        }
        if number < MAX_CALLS - 1 && reached {
            Reading::Batch { number }
        } else {
            Reading::Summarizing
        }
    }

    /// The rows to show next, from the first up to the second number, or nothing where no rows are
    /// shown any more.
    pub fn window(&self) -> (r: Option<(usize, usize)>)
        requires
            self.deep_view().well_formed(),
        ensures
            match r {
                Some((from, to)) => {
                    &&& self.deep_view().window() == Some((from as nat, to as nat))
                    &&& from <= to <= self.rows
                },
                None => self.deep_view().window() is None,
            },
    {
        match self.stage {
            Reading::Opening => Some((0, lesser(self.batch_size, self.rows))),
            Reading::Batch { number } => {
                let step: usize = if self.batch_size == 0 {
                    1
                } else {
                    self.batch_size
                };
                proof {
                    assert(number as nat * self.deep_view().step() >= 0) by (nonlinear_arith);
                }
                let start: usize = lesser(self.batch_size, self.rows) + number * step;
                let end: usize = if self.rows - start <= step {
                    self.rows
                } else {
                    start + step
                };
                Some((start, end))
            },
            _ => None,
        }
    }

    /// The first batch was observed.
    pub fn opened(&mut self, observations: &str)
        requires
            old(self).deep_view().well_formed(),
            old(self).stage == Reading::Opening,
        ensures
            final(self).deep_view() == old(self).deep_view().opened(observations@),
            final(self).deep_view().well_formed(),
    {
        self.observations = observations.to_owned();
        self.stage = self.stage_at(0);
    }

    /// A batch was answered, or failed.
    pub fn answered(&mut self, reply: Option<&str>)
        requires
            old(self).deep_view().well_formed(),
            old(self).stage is Batch,
        ensures
            final(self).deep_view() == old(self).deep_view().answered(
                match reply {
                    Some(added) => Some(added@),
                    None => None,
                },
            ),
            final(self).deep_view().well_formed(),
    {
        if let Reading::Batch { number } = self.stage {
            match reply {
                Some(added) => if says_complete(added) {
                    self.skips = self.skips + 1;
                    self.stage =
                    if self.skips >= MAX_SKIPS {
                        Reading::Summarizing
                    } else {
                        self.stage_at(number + 1)
                    };
                } else {
                    self.observations.append(added);
                    self.stage = self.stage_at(number + 1);
                },
                None => {
                    self.stage = Reading::Summarizing;
                },
            }
        }
    }

    /// The observations were summarized.
    pub fn summarized(&mut self, reply: &str)
        requires
            old(self).stage == Reading::Summarizing,
        ensures
            final(self).deep_view() == old(self).deep_view().summarized(reply@),
    {
        self.summary = strip_prefix(reply);
        self.stage = Reading::Done;
    }
}

/// A reading ends: each answer moves on to a later batch, of which there are at most nine, or to
/// the summary.
pub proof fn law_a_reading_moves_on(reading: SummaryModel, reply: Option<Seq<char>>)
    requires
        reading.well_formed(),
        reading.stage is Batch,
    ensures
        ({
            let after = reading.answered(reply).stage;
            ||| after == Reading::Summarizing
            ||| after is Batch && after->number == reading.stage->number + 1 && after->number < 9
        }),
{
}

/// Batches do not overlap and leave no row between them out: each starts where the one before it
/// ends.
pub proof fn law_batches_follow_on(reading: SummaryModel, number: nat)
    requires
        reading.reads(number + 1),
    ensures
        reading.start_of(0) == reading.opening(),
        reading.start_of(number + 1) == reading.start_of(number) + reading.step(),
        least(reading.start_of(number) + reading.step(), reading.rows as nat) == reading.start_of(
            number + 1,
        ),
{
    let step = reading.step();
    assert((number + 1) * step == number * step + step) by (nonlinear_arith);
    assert(0 * step == 0);
}

/// A row is shown by every field it has, in order, and names every input once, in the order of the
/// names. One field more is one text more, and an input more where it is one.
pub proof fn law_every_field_of_a_row_is_printed(
    fields: Seq<PrintedFieldModel>,
    field: PrintedFieldModel,
    other: Seq<char>,
)
    ensures
        field_texts(Seq::empty()).len() == 0,
        field_texts(fields.push(field)) == field_texts(fields).push(
            field.name_literal + ": "@ + field.value_literal,
        ),
        input_keys(Seq::empty()).len() == 0,
        !field.is_input ==> input_keys(fields.push(field)) == input_keys(fields),
        field.is_input ==> lookup(input_keys(fields.push(field)), field.name) == Some(
            field.name_literal,
        ),
        other != field.name ==> lookup(input_keys(fields.push(field)), other) == lookup(
            input_keys(fields),
            other,
        ),
        ascending(input_keys(fields)),
        example_source(fields) == "Example({"@ + joined(field_texts(fields), ", "@)
            + "}) (input_keys={"@ + joined(
            Seq::new(input_keys(fields).len(), |i: int| input_keys(fields)[i].1),
            ", "@,
        ) + "})"@,
    decreases fields.len(),
{
    assert(fields.push(field).drop_last() =~= fields);
    assert(field_texts(fields.push(field)) =~= field_texts(fields).push(
        field.name_literal + ": "@ + field.value_literal,
    ));
    if fields.len() > 0 {
        let before = fields.drop_last();
        let last = fields.last();
        law_every_field_of_a_row_is_printed(before, field, other);
        if last.is_input {
            law_filing_keeps_the_order(input_keys(before), last.name, last.name_literal, other);
        }
    }
    if field.is_input {
        law_filing_keeps_the_order(input_keys(fields), field.name, field.name_literal, other);
    }
    assert(seconds(input_keys(fields)) =~= Seq::new(
        input_keys(fields).len(),
        |i: int| input_keys(fields)[i].1,
    ));
}

/// What every batch adds is kept, in order, behind what was observed before; a reply that says there
/// is nothing to add is counted and not kept. Reading goes on to the next batch for as long as there
/// is one, up to the ninth after the first, unless an ask fails or five replies had nothing to add.
pub proof fn law_observations_add_up(
    reading: SummaryModel,
    observations: Seq<char>,
    added: Seq<char>,
)
    requires
        reading.well_formed(),
        reading.stage is Batch,
    ensures
        ({
            let number = reading.stage->number as nat;
            let step: nat = if reading.batch_size == 0 {
                1
            } else {
                reading.batch_size as nat
            };
            let first: nat = if reading.batch_size <= reading.rows {
                reading.batch_size as nat
            } else {
                reading.rows as nat
            };
            let onward = if number + 1 < 9 && first + (number + 1) * step < reading.rows {
                Reading::Batch { number: (number + 1) as usize }
            } else {
                Reading::Summarizing
            };
            let said = reading.answered(Some(added));
            let nothing = completes(added);
            &&& reading.opened(observations).observations == observations
            &&& reading.opened(observations).stage == if first < reading.rows {
                Reading::Batch { number: 0 }
            } else {
                Reading::Summarizing
            }
            &&& !nothing ==> said.observations == reading.observations + added && said.skips
                == reading.skips && said.stage == onward
            &&& nothing ==> said.observations == reading.observations && said.skips == reading.skips
                + 1
            &&& nothing && reading.skips + 1 < 5 ==> said.stage == onward
            &&& nothing && reading.skips + 1 >= 5 ==> said.stage == Reading::Summarizing
            &&& reading.answered(None).observations == reading.observations
            &&& reading.answered(None).stage == Reading::Summarizing
            &&& reading.window() == Some(
                (
                    first + number * step,
                    if first + number * step + step <= reading.rows {
                        first + number * step + step
                    } else {
                        reading.rows as nat
                    },
                ),
            )
            &&& said.rows == reading.rows && said.batch_size == reading.batch_size
        }),
{
    let step = reading.step();
    assert(0 * step == 0) by (nonlinear_arith);
}

/// The summary is the model's reply without a leading label and without the quotes around it, and
/// rows are listed between brackets.
pub proof fn law_the_summary_is_the_reply(
    reading: SummaryModel,
    reply: Seq<char>,
    rows: Seq<Seq<PrintedFieldModel>>,
)
    ensures
        reading.summarized(reply).summary == unwrapped(unlabelled(reply), '"'),
        reading.summarized(reply).stage == Reading::Done,
        reading.summarized(reply).observations == reading.observations,
        examples_source(rows) == "["@ + joined(
            Seq::new(rows.len(), |i: int| example_source(rows[i])),
            ", "@,
        ) + "]"@,
{
}

/// A reply says that nothing is to be added where it opens with the word, in letters of either case,
/// whatever follows it.
pub proof fn law_a_reply_completes_in_either_case(reply: Seq<char>)
    ensures
        completes(reply) <==> {
            &&& reply.len() >= 8
            &&& reply[0] == 'c' || reply[0] == 'C'
            &&& reply[1] == 'o' || reply[1] == 'O'
            &&& reply[2] == 'm' || reply[2] == 'M'
            &&& reply[3] == 'p' || reply[3] == 'P'
            &&& reply[4] == 'l' || reply[4] == 'L'
            &&& reply[5] == 'e' || reply[5] == 'E'
            &&& reply[6] == 't' || reply[6] == 'T'
            &&& reply[7] == 'e' || reply[7] == 'E'
        },
{
    reveal_strlit("COMPLETE");
    let word = "COMPLETE"@;
    assert(word[0] == 'C' && word[1] == 'O' && word[2] == 'M' && word[3] == 'P');
    assert(word[4] == 'L' && word[5] == 'E' && word[6] == 'T' && word[7] == 'E');
}

} // verus!
