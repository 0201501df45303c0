//! Proposing instructions for components whose examples carry media: each custom type is replaced
//! by a numbered placeholder, and the objects are sent alongside the text.
use vstd::prelude::*;
use vstd::string::StringExecFns;
use crate::duplicate::append;
use crate::entries::{get, has, lookup};
use crate::optimize::gepa::binding::Candidate;
use crate::optimize::gepa::reflective::{ReflectiveDataset, ReflectiveModel};
use crate::signature::{input, output, plain_field, InField, OutField, Signature, SignatureModel};

pub mod patterns;
pub mod rendering;

use patterns::{analysis, lowered_feedback, summary};
use rendering::{all_media, dataset_text, formatted, Marks, MarksModel};

verus! {

/// Proposes instructions with media shown beside the text.
#[derive(Debug)]
pub struct MultiModalInstructionProposer {
    pub signature: Signature,
}

/// The task a proposal is asked for under.
pub open spec fn proposal_signature(instructions: Seq<char>) -> SignatureModel {
    SignatureModel {
        instructions,
        inputs: seq![
            plain_field(
                "current_instruction"@,
                "The current instruction that was provided to the assistant to perform the multimodal task"@,
            ),
            plain_field(
                "examples_with_feedback"@,
                "Task examples with visual content showing inputs, assistant outputs, and feedback. Pay special attention to feedback about visual analysis accuracy, visual-textual integration, and any domain-specific visual knowledge that the assistant missed."@,
            ),
        ],
        outputs: seq![
            plain_field(
                "improved_instruction"@,
                "A better instruction for the assistant that addresses visual analysis issues, provides clear guidance on how to process and integrate visual and textual information, includes necessary visual domain knowledge, and prevents the visual analysis mistakes shown in the examples."@,
            ),
        ],
    }
}

/// What a model is shown of a component's examples: the summary of their feedback where there is
/// one, and the examples.
pub open spec fn shown_examples(
    dataset: Seq<Seq<(Seq<char>, ReflectiveModel)>>,
    marks: MarksModel,
) -> Seq<char> {
    match analysis(lowered_feedback(dataset)) {
        Some(summary) => summary + "\n\n"@ + dataset_text(dataset, marks),
        None => dataset_text(dataset, marks),
    }
}

/// The components that can be proposed for: those with a text and a dataset.
pub open spec fn askable(
    candidate: Seq<(Seq<char>, Seq<char>)>,
    components: Seq<Seq<char>>,
    datasets: Seq<(Seq<char>, Seq<Seq<(Seq<char>, ReflectiveModel)>>)>,
) -> Seq<Seq<char>> {
    components.filter(|name: Seq<char>| has(candidate, name) && has(datasets, name))
}

impl MultiModalInstructionProposer {
    /// A proposer that asks under these instructions.
    pub fn new(instructions: &str) -> (r: MultiModalInstructionProposer)
        ensures
            r.signature.deep_view() == proposal_signature(instructions@),
    {
        let mut inputs: Vec<InField> = Vec::new();
        append(
            &mut inputs,
            input(
                "current_instruction",
                "The current instruction that was provided to the assistant to perform the multimodal task",
            ),
        );
        append(
            &mut inputs,
            input(
                "examples_with_feedback",
                "Task examples with visual content showing inputs, assistant outputs, and feedback. Pay special attention to feedback about visual analysis accuracy, visual-textual integration, and any domain-specific visual knowledge that the assistant missed.",
            ),
        );
        let mut outputs: Vec<OutField> = Vec::new();
        append(
            &mut outputs,
            output(
                "improved_instruction",
                "A better instruction for the assistant that addresses visual analysis issues, provides clear guidance on how to process and integrate visual and textual information, includes necessary visual domain knowledge, and prevents the visual analysis mistakes shown in the examples.",
            ),
        );
        let signature = Signature { instructions: instructions.to_owned(), inputs, outputs };
        proof {
            assert(signature.deep_view() =~= proposal_signature(instructions@));
        }
        MultiModalInstructionProposer { signature }
    }

    /// What a model is shown of a component's examples, and the media that go with the text, in
    /// the order the examples meet them.
    pub fn examples(&self, dataset: &ReflectiveDataset, marks: &Marks) -> (r: (String, Vec<String>))
        ensures
            r.0@ == shown_examples(dataset.deep_view(), marks.deep_view()),
            r.1.deep_view() == all_media(dataset.deep_view(), marks.deep_view()),
    {
        let (markdown, media) = formatted(dataset, marks);
        match summary(dataset) {
            Some(summary) => {
                let mut text = summary;
                text.append("\n\n");
                text.append(markdown.as_str());
                (text, media)
            },
            None => (markdown, media),
        }
    }

    /// The components to ask for, in the order they are named. One missing from the candidate or
    /// from the datasets keeps the text it had.
    pub fn asked(
        &self,
        candidate: &Candidate,
        components: &Vec<String>,
        datasets: &Vec<(String, ReflectiveDataset)>,
    ) -> (r: Vec<String>)
        ensures
            r.deep_view() == askable(
                candidate.deep_view(),
                components.deep_view(),
                datasets.deep_view(),
            ),
    {
        let mut r: Vec<String> = Vec::new();
        let ghost names = components.deep_view();
        let ghost keep = |name: Seq<char>|
            has(candidate.deep_view(), name) && has(datasets.deep_view(), name);
        let mut i: usize = 0;
        proof {
            reveal(Seq::filter);
            assert(r.deep_view() =~= names.take(0).filter(keep));
        }
        while i < components.len()
            invariant
                i <= components@.len(),
                names == components.deep_view(),
                keep == (|name: Seq<char>|
                    has(candidate.deep_view(), name) && has(datasets.deep_view(), name)),
                r.deep_view() == names.take(i as int).filter(keep),
            decreases components@.len() - i,
        {
            proof {
                assert(names.take(i + 1).drop_last() =~= names.take(i as int));
                reveal(Seq::filter);
            }
            let name = components[i].as_str();
            if get(candidate, name).is_some() && get(datasets, name).is_some() {
                append(&mut r, components[i].clone());
            }
            i = i + 1;
        }
        proof {
            assert(names.take(i as int) =~= names);
        }
        r
    }
}

/// What a model is shown holds the whole of the examples, behind the summary of their feedback where
/// there is one. Components are asked about in their order: exactly those that have both a text and
/// records.
pub proof fn law_the_examples_follow_their_summary(
    dataset: Seq<Seq<(Seq<char>, ReflectiveModel)>>,
    marks: MarksModel,
    candidate: Seq<(Seq<char>, Seq<char>)>,
    components: Seq<Seq<char>>,
    datasets: Seq<(Seq<char>, Seq<Seq<(Seq<char>, ReflectiveModel)>>)>,
    name: Seq<char>,
)
    ensures
        analysis(lowered_feedback(dataset)) is None ==> shown_examples(dataset, marks)
            == dataset_text(dataset, marks),
        analysis(lowered_feedback(dataset)) matches Some(summary) ==> shown_examples(dataset, marks)
            == summary + "\n\n"@ + dataset_text(dataset, marks),
        askable(candidate, Seq::empty(), datasets).len() == 0,
        askable(candidate, components.push(name), datasets) == if lookup(candidate, name) is Some
            && lookup(datasets, name) is Some {
            askable(candidate, components, datasets).push(name)
        } else {
            askable(candidate, components, datasets)
        },
{
    reveal(Seq::filter);
    assert(components.push(name).drop_last() =~= components);
}

} // verus!
