//! The summary of its feedback that a dataset opens with: which of three word lists each example's
//! feedback touches.
//!
//! The lists are read independently, so one sentence can count in all three, and part of a word
//! is enough.
use vstd::prelude::*;
use vstd::string::StringExecFns;
use crate::duplicate::append;
use crate::entries::{get, lookup};
use crate::optimize::gepa::reflective::{Reflective, ReflectiveDataset, ReflectiveModel};
use crate::text::{contains, decimal, decimal_text, join, joined, lowercase, occurs, to_lowercase};

verus! {

/// Which list a feedback is read against.
#[derive(Clone, Copy, Debug, PartialEq, Eq, Structural)]
pub enum Bucket {
    Errors,
    Successes,
    Knowledge,
}

impl Bucket {
    /// Whether a text holds one of the list's words.
    pub open spec fn touched(self, text: Seq<char>) -> bool {
        match self {
            Bucket::Errors => {
                ||| occurs(text, "incorrect"@)
                ||| occurs(text, "wrong"@)
                ||| occurs(text, "error"@)
                ||| occurs(text, "failed"@)
                ||| occurs(text, "missing"@)
            },
            Bucket::Successes => {
                ||| occurs(text, "correct"@)
                ||| occurs(text, "good"@)
                ||| occurs(text, "accurate"@)
                ||| occurs(text, "well"@)
                ||| occurs(text, "successfully"@)
            },
            Bucket::Knowledge => {
                ||| occurs(text, "should know"@)
                ||| occurs(text, "domain"@)
                ||| occurs(text, "specific"@)
                ||| occurs(text, "context"@)
                ||| occurs(text, "background"@)
            },
        }
    }

    /// The lines a summary has for this list.
    pub open spec fn lines(self, count: nat) -> Seq<Seq<char>> {
        if count == 0 {
            Seq::empty()
        } else {
            match self {
                Bucket::Errors => seq![
                    "**Common Issues Found ("@ + decimal(count) + " examples):**"@,
                    "Focus on preventing these types of mistakes in the new instruction.\n"@,
                ],
                Bucket::Successes => seq![
                    "**Successful Approaches Found ("@ + decimal(count) + " examples):**"@,
                    "Build on these successful strategies in the new instruction.\n"@,
                ],
                Bucket::Knowledge => seq![
                    "**Domain Knowledge Needs Identified ("@ + decimal(count) + " examples):**"@,
                    "Include this specialized knowledge in the new instruction.\n"@,
                ],
            }
        }
    }

    fn touches(self, text: &str) -> (r: bool)
        ensures
            r == self.touched(text@),
    {
        match self {
            Bucket::Errors => contains(text, "incorrect") || contains(text, "wrong") || contains(
                text,
                "error",
            ) || contains(text, "failed") || contains(text, "missing"),
            Bucket::Successes => contains(text, "correct") || contains(text, "good") || contains(
                text,
                "accurate",
            ) || contains(text, "well") || contains(text, "successfully"),
            Bucket::Knowledge => contains(text, "should know") || contains(text, "domain")
                || contains(text, "specific") || contains(text, "context") || contains(
                text,
                "background",
            ),
        }
    }

    fn add_lines(self, count: usize, parts: &mut Vec<String>)
        ensures
            final(parts).deep_view() == old(parts).deep_view() + self.lines(count as nat),
    {
        let ghost was = parts.deep_view();
        if count > 0 {
            let (opening, advice) = match self {
                Bucket::Errors => (
                    "**Common Issues Found (",
                    "Focus on preventing these types of mistakes in the new instruction.\n",
                ),
                Bucket::Successes => (
                    "**Successful Approaches Found (",
                    "Build on these successful strategies in the new instruction.\n",
                ),
                Bucket::Knowledge => (
                    "**Domain Knowledge Needs Identified (",
                    "Include this specialized knowledge in the new instruction.\n",
                ),
            };
            let mut line: String = opening.to_owned();
            line.append(decimal_text(count).as_str());
            line.append(" examples):**");
            append(parts, line);
            append(parts, advice.to_owned());
        }
        proof {
            assert(parts.deep_view() =~= was + self.lines(count as nat));
        }
    }
}

/// An example's feedback, where it has one and it is text.
pub open spec fn feedback_of(sample: Seq<(Seq<char>, ReflectiveModel)>) -> Option<Seq<char>> {
    match lookup(sample, "Feedback"@) {
        Some(ReflectiveModel::Text(text)) => Some(text),
        _ => None,
    }
}

/// The feedback of the examples that have one, in lower case.
pub open spec fn lowered_feedback(dataset: Seq<Seq<(Seq<char>, ReflectiveModel)>>) -> Seq<Seq<char>>
    decreases dataset.len(),
{
    if dataset.len() == 0 {
        Seq::empty()
    } else {
        let before = lowered_feedback(dataset.drop_last());
        match feedback_of(dataset.last()) {
            Some(text) => before.push(lowercase(text)),
            None => before,
        }
    }
}

/// How many feedbacks a list is touched by.
pub open spec fn tally(feedback: Seq<Seq<char>>, bucket: Bucket) -> nat
    decreases feedback.len(),
{
    if feedback.len() == 0 {
        0
    } else {
        tally(feedback.drop_last(), bucket) + if bucket.touched(feedback.last()) {
            1nat
        } else {
            0nat
        }
    }
}

/// The summary of some feedback, or nothing where no list is touched.
pub open spec fn analysis(feedback: Seq<Seq<char>>) -> Option<Seq<char>> {
    let errors = tally(feedback, Bucket::Errors);
    let successes = tally(feedback, Bucket::Successes);
    let knowledge = tally(feedback, Bucket::Knowledge);
    if errors == 0 && successes == 0 && knowledge == 0 {
        None
    } else {
        Some(
            joined(
                seq!["## Feedback Pattern Analysis\n"@] + Bucket::Errors.lines(errors)
                    + Bucket::Successes.lines(successes) + Bucket::Knowledge.lines(knowledge),
                "\n"@,
            ),
        )
    }
}

fn count(feedback: &Vec<String>, bucket: Bucket) -> (r: usize)
    ensures
        r == tally(feedback.deep_view(), bucket),
{
    let mut found: usize = 0;
    let mut i: usize = 0;
    let ghost model = feedback.deep_view();
    while i < feedback.len()
        invariant
            i <= feedback@.len(),
            found <= i,
            model == feedback.deep_view(),
            found == tally(model.take(i as int), bucket),
        decreases feedback@.len() - i,
    {
        proof {
            assert(model.take(i + 1).drop_last() =~= model.take(i as int));
            assert(model.take(i + 1).last() == feedback@[i as int]@);
        }
        if bucket.touches(feedback[i].as_str()) {
            found = found + 1;
        }
        i = i + 1;
    }
    proof {
        assert(model.take(i as int) =~= model);
    }
    found
}

/// The summary of feedback that is in lower case already, or nothing where no list is touched.
pub fn analyzed(feedback: &Vec<String>) -> (r: Option<String>)
    ensures
        r.deep_view() == analysis(feedback.deep_view()),
{
    let errors: usize = count(feedback, Bucket::Errors);
    let successes: usize = count(feedback, Bucket::Successes);
    let knowledge: usize = count(feedback, Bucket::Knowledge);
    if errors == 0 && successes == 0 && knowledge == 0 {
        return None;
    }
    let mut parts: Vec<String> = Vec::new();
    append(&mut parts, "## Feedback Pattern Analysis\n".to_owned());
    proof {
        assert(parts.deep_view() =~= seq!["## Feedback Pattern Analysis\n"@]);
    }
    Bucket::Errors.add_lines(errors, &mut parts);
    Bucket::Successes.add_lines(successes, &mut parts);
    Bucket::Knowledge.add_lines(knowledge, &mut parts);
    Some(join(&parts, "\n"))
}

/// The summary of a dataset's feedback, or nothing where no list is touched.
pub fn summary(dataset: &ReflectiveDataset) -> (r: Option<String>)
    ensures
        r.deep_view() == analysis(lowered_feedback(dataset.deep_view())),
{
    let ghost model = dataset.deep_view();
    let mut feedback: Vec<String> = Vec::new();
    let mut i: usize = 0;
    proof {
        assert(feedback.deep_view() =~= lowered_feedback(model.take(0)));
    }
    while i < dataset.len()
        invariant
            i <= dataset@.len(),
            model == dataset.deep_view(),
            feedback.deep_view() == lowered_feedback(model.take(i as int)),
        decreases dataset@.len() - i,
    {
        proof {
            assert(model.take(i + 1).drop_last() =~= model.take(i as int));
            assert(model.take(i + 1).last() == dataset@[i as int].deep_view());
        }
        if let Some(Reflective::Text(text)) = get(&dataset[i], "Feedback") {
            append(&mut feedback, to_lowercase(text.as_str()));
        }
        i = i + 1;
    }
    proof {
        assert(model.take(i as int) =~= model);
    }
    analyzed(&feedback)
}

/// Part of a word is enough: a feedback that holds a list's word inside a longer one counts.
pub proof fn law_part_of_a_word_counts(head: Seq<char>, tail: Seq<char>)
    ensures
        Bucket::Successes.touched(head + "well"@ + tail),
        Bucket::Errors.touched(head + "wrong"@ + tail),
{
    crate::text::lemma_occurs_inside(head, "well"@, tail);
    crate::text::lemma_occurs_inside(head, "wrong"@, tail);
}

/// Each list is touched by each of its words, wherever in a text the word stands.
pub proof fn law_every_word_of_a_list_counts(head: Seq<char>, tail: Seq<char>)
    ensures
        Bucket::Errors.touched(head + "incorrect"@ + tail),
        Bucket::Errors.touched(head + "error"@ + tail),
        Bucket::Errors.touched(head + "failed"@ + tail),
        Bucket::Errors.touched(head + "missing"@ + tail),
        Bucket::Successes.touched(head + "correct"@ + tail),
        Bucket::Successes.touched(head + "good"@ + tail),
        Bucket::Successes.touched(head + "accurate"@ + tail),
        Bucket::Successes.touched(head + "successfully"@ + tail),
        Bucket::Knowledge.touched(head + "should know"@ + tail),
        Bucket::Knowledge.touched(head + "domain"@ + tail),
        Bucket::Knowledge.touched(head + "specific"@ + tail),
        Bucket::Knowledge.touched(head + "context"@ + tail),
        Bucket::Knowledge.touched(head + "background"@ + tail),
{
    crate::text::lemma_occurs_inside(head, "incorrect"@, tail);
    crate::text::lemma_occurs_inside(head, "error"@, tail);
    crate::text::lemma_occurs_inside(head, "failed"@, tail);
    crate::text::lemma_occurs_inside(head, "missing"@, tail);
    crate::text::lemma_occurs_inside(head, "correct"@, tail);
    crate::text::lemma_occurs_inside(head, "good"@, tail);
    crate::text::lemma_occurs_inside(head, "accurate"@, tail);
    crate::text::lemma_occurs_inside(head, "successfully"@, tail);
    crate::text::lemma_occurs_inside(head, "should know"@, tail);
    crate::text::lemma_occurs_inside(head, "domain"@, tail);
    crate::text::lemma_occurs_inside(head, "specific"@, tail);
    crate::text::lemma_occurs_inside(head, "context"@, tail);
    crate::text::lemma_occurs_inside(head, "background"@, tail);
}

/// Every feedback is counted for every list it touches, and every example with a feedback that is
/// text is read: one more counts one more.
pub proof fn law_every_feedback_is_counted(
    feedback: Seq<Seq<char>>,
    text: Seq<char>,
    bucket: Bucket,
    dataset: Seq<Seq<(Seq<char>, ReflectiveModel)>>,
    sample: Seq<(Seq<char>, ReflectiveModel)>,
)
    ensures
        tally(Seq::empty(), bucket) == 0,
        bucket.touched(text) ==> tally(feedback.push(text), bucket) == tally(feedback, bucket) + 1,
        !bucket.touched(text) ==> tally(feedback.push(text), bucket) == tally(feedback, bucket),
        lowered_feedback(Seq::empty()).len() == 0,
        match lookup(sample, "Feedback"@) {
            Some(ReflectiveModel::Text(said)) => lowered_feedback(dataset.push(sample))
                == lowered_feedback(dataset).push(lowercase(said)),
            _ => lowered_feedback(dataset.push(sample)) == lowered_feedback(dataset),
        },
{
    assert(feedback.push(text).drop_last() =~= feedback);
    assert(dataset.push(sample).drop_last() =~= dataset);
}

/// There is a summary exactly where some list is touched. It opens with its heading and then says of
/// each list that is touched, in the order errors, successes, knowledge, how many examples touch it.
pub proof fn law_the_summary_counts_each_list(feedback: Seq<Seq<char>>)
    ensures
        ({
            let (e, s, k) = (
                tally(feedback, Bucket::Errors),
                tally(feedback, Bucket::Successes),
                tally(feedback, Bucket::Knowledge),
            );
            let part = |count: nat, opening: Seq<char>, advice: Seq<char>|
                if count == 0 {
                    Seq::<Seq<char>>::empty()
                } else {
                    seq![opening + decimal(count) + " examples):**"@, advice]
                };
            &&& analysis(feedback) is None <==> e == 0 && s == 0 && k == 0
            &&& analysis(feedback) is Some ==> analysis(feedback)->0 == joined(
                seq!["## Feedback Pattern Analysis\n"@] + part(
                    e,
                    "**Common Issues Found ("@,
                    "Focus on preventing these types of mistakes in the new instruction.\n"@,
                ) + part(
                    s,
                    "**Successful Approaches Found ("@,
                    "Build on these successful strategies in the new instruction.\n"@,
                ) + part(
                    k,
                    "**Domain Knowledge Needs Identified ("@,
                    "Include this specialized knowledge in the new instruction.\n"@,
                ),
                "\n"@,
            )
        }),
{
}

/// No other word counts: a text that holds none of a list's words is not counted under it.
pub proof fn law_no_other_word_counts(text: Seq<char>)
    ensures
        Bucket::Errors.touched(text) ==> occurs(text, "incorrect"@) || occurs(text, "wrong"@)
            || occurs(text, "error"@) || occurs(text, "failed"@) || occurs(text, "missing"@),
        Bucket::Successes.touched(text) ==> occurs(text, "correct"@) || occurs(text, "good"@)
            || occurs(text, "accurate"@) || occurs(text, "well"@) || occurs(text, "successfully"@),
        Bucket::Knowledge.touched(text) ==> occurs(text, "should know"@) || occurs(text, "domain"@)
            || occurs(text, "specific"@) || occurs(text, "context"@) || occurs(text, "background"@),
{
}

} // verus!
