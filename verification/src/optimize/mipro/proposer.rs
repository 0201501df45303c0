//! Proposing one instruction for one predictor: what the model is shown, and what is read out of
//! its reply.
use vstd::prelude::*;
use vstd::string::StringExecFns;
use crate::duplicate::append;
use crate::signature::{names_of, Signature, SignatureModel};
use crate::text::{
    char_is_whitespace, chars_of, is_letter_or_digit, is_white_space, join, joined, letter_or_digit,
    text_of, trim_matches, unwrapped,
};

verus! {

/// The sorts of character a label is made of.
#[derive(Clone, Copy, Debug, PartialEq, Eq, Structural)]
pub enum Class {
    /// What may lead a label: asterisks and white space.
    Lead,
    /// What its words are spelled with: letters and digits, `_`, `'` and `-`.
    Word,
    /// What parts its words: white space.
    Space,
}

impl Class {
    pub open spec fn holds(self, c: char) -> bool {
        match self {
            Class::Lead => c == '*' || is_white_space(c),
            Class::Word => is_letter_or_digit(c) || c == '_' || c == '\'' || c == '-',
            Class::Space => is_white_space(c),
        }
    }

    fn accepts(self, c: char) -> (r: bool)
        ensures
            r == self.holds(c),
    {
        match self {
            Class::Lead => c == '*' || char_is_whitespace(c),
            Class::Word => letter_or_digit(c) || c == '_' || c == '\'' || c == '-',
            Class::Space => char_is_whitespace(c),
        }
    }
}

/// How many characters of a class lead `s`.
pub open spec fn run(s: Seq<char>, class: Class) -> nat
    decreases s.len(),
{
    if s.len() > 0 && class.holds(s[0]) {
        1 + run(s.skip(1), class)
    } else {
        0
    }
}

/// What follows a label of at most `words` words and a colon, and the white space after that, or
/// nothing where `s` opens with no such label.
pub open spec fn past_label(s: Seq<char>, words: nat) -> Option<Seq<char>>
    decreases words,
{
    let word = run(s, Class::Word);
    let after = s.skip(word as int);
    if words == 0 || word == 0 {
        None
    } else if after.len() > 0 && after[0] == ':' {
        let rest = after.skip(1);
        Some(rest.skip(run(rest, Class::Space) as int))
    } else {
        let spaces = run(after, Class::Space);
        if spaces == 0 {
            None
        } else {
            past_label(after.skip(spaces as int), (words - 1) as nat)
        }
    }
}

/// A text past its leading label of up to five words, or all of it where it has none. Asterisks
/// and white space before the label go with it.
pub open spec fn unlabelled(s: Seq<char>) -> Seq<char> {
    match past_label(s.skip(run(s, Class::Lead) as int), 5) {
        Some(rest) => rest,
        None => s,
    }
}

fn run_from(chars: &Vec<char>, from: usize, class: Class) -> (r: usize)
    requires
        from <= chars@.len(),
    ensures
        r == run(chars@.skip(from as int), class),
        from + r <= chars.len(),
{
    let mut at: usize = from;
    let ghost whole = chars@.skip(from as int);
    while at < chars.len() && class.accepts(chars[at])
        invariant
            from <= at <= chars@.len(),
            run(whole, class) == (at - from) + run(chars@.skip(at as int), class),
        decreases chars@.len() - at,
    {
        proof {
            assert(chars@.skip(at as int).skip(1) =~= chars@.skip(at + 1));
        }
        at = at + 1;
    }
    at - from
}

/// [`unlabelled`], computed.
pub fn without_label(text: &str) -> (r: String)
    ensures
        r@ == unlabelled(text@),
{
    let chars = chars_of(text);
    proof {
        assert(chars@.skip(0) =~= chars@);
    }
    let mut at: usize = run_from(&chars, 0, Class::Lead);
    let ghost labelled = chars@.skip(at as int);
    let mut left: usize = 5;
    while left > 0
        invariant_except_break
            past_label(labelled, 5) == past_label(chars@.skip(at as int), left as nat),
        invariant
            at <= chars@.len(),
            left <= 5,
            chars@ == text@,
            labelled == text@.skip(run(text@, Class::Lead) as int),
        ensures
            past_label(labelled, 5) is None,
        decreases left,
    {
        let word: usize = run_from(&chars, at, Class::Word);
        if word == 0 {
            break;
        }
        let ghost s = chars@.skip(at as int);
        proof {
            assert(s.skip(word as int) =~= chars@.skip(at + word));
        }
        at = at + word;
        if at < chars.len() && chars[at] == ':' {
            proof {
                assert(chars@.skip(at as int).skip(1) =~= chars@.skip(at + 1));
            }
            let spaces: usize = run_from(&chars, at + 1, Class::Space);
            let from: usize = at + 1 + spaces;
            proof {
                assert(chars@.skip(at + 1).skip(spaces as int) =~= chars@.subrange(
                    from as int,
                    chars@.len() as int,
                ));
            }
            return text_of(&chars, from, chars.len());
        }
        let spaces: usize = run_from(&chars, at, Class::Space);
        if spaces == 0 {
            break;
        }
        proof {
            assert(chars@.skip(at as int).skip(spaces as int) =~= chars@.skip(at + spaces));
        }
        at = at + spaces;
        left = left - 1;
    }
    text.to_owned()
}

/// A reply without a leading label, and without the double quotes around what is left.
pub fn strip_prefix(text: &str) -> (r: String)
    ensures
        r@ == unwrapped(unlabelled(text@), '"'),
{
    let rest = without_label(text);
    trim_matches(rest.as_str(), '"')
}

/// The line a predictor is summarised by.
pub open spec fn module_line(predictor: SignatureModel) -> Seq<char> {
    "Predict("@ + joined(names_of(predictor.inputs), ", "@) + ") -> "@ + joined(
        names_of(predictor.outputs),
        ", "@,
    )
}

/// [`module_line`], written.
pub fn module_code(predictor: &Signature) -> (r: String)
    ensures
        r@ == module_line(predictor.deep_view()),
{
    let inputs = join(&predictor.input_names(), ", ");
    let outputs = join(&predictor.output_names(), ", ");
    let mut r: String = "Predict(".to_owned();
    r.append(inputs.as_str());
    r.append(") -> ");
    r.append(outputs.as_str());
    r
}

/// Which of the optional grounds a proposal is given.
#[derive(Clone, Copy, Debug, PartialEq, Eq, Structural)]
pub struct InstructionInputs {
    pub dataset_summary: bool,
    pub program_aware: bool,
    pub instruct_history: bool,
    pub tip: bool,
}

/// The proposer of one instruction for one predictor.
#[derive(Debug)]
pub struct GenerateModuleInstruction {
    pub program_code: Option<String>,
    pub inputs: InstructionInputs,
}

/// The fields of an ask, by name.
pub type Fields = Seq<(Seq<char>, Seq<char>)>;

/// What is shown when the whole program is to be described.
pub open spec fn program_ask(program_code: Seq<char>, task_demos: Seq<char>) -> Fields {
    seq![("program_code"@, program_code), ("program_example"@, task_demos)]
}

/// What is shown when one module of it is to be described.
pub open spec fn module_ask(
    program_code: Seq<char>,
    program_description: Seq<char>,
    task_demos: Seq<char>,
    module: Seq<char>,
) -> Fields {
    seq![
        ("program_code"@, program_code),
        ("program_description"@, program_description),
        ("program_example"@, task_demos),
        ("module"@, module),
    ]
}

/// What is shown when an instruction is to be proposed: the grounds that are on, in this order.
pub open spec fn instruction_ask(
    inputs: InstructionInputs,
    program_code: Seq<char>,
    predictor: SignatureModel,
    task_demos: Seq<char>,
    data_summary: Seq<char>,
    previous_instructions: Seq<char>,
    descriptions: (Seq<char>, Seq<char>),
    tip: Seq<char>,
) -> Fields {
    let summary: Fields = if inputs.dataset_summary {
        seq![("dataset_description"@, data_summary)]
    } else {
        Seq::empty()
    };
    let program: Fields = if inputs.program_aware {
        seq![
            ("program_code"@, program_code),
            ("program_description"@, descriptions.0),
            ("module"@, module_line(predictor)),
            ("module_description"@, descriptions.1),
        ]
    } else {
        Seq::empty()
    };
    let history: Fields = if inputs.instruct_history {
        seq![("previous_instructions"@, previous_instructions)]
    } else {
        Seq::empty()
    };
    let advice: Fields = if inputs.tip {
        seq![("tip"@, tip)]
    } else {
        Seq::empty()
    };
    summary + program + seq![("task_demos"@, task_demos)] + history + seq![
        ("basic_instruction"@, predictor.instructions),
    ] + advice
}

/// Adds one field to an ask.
fn show(fields: &mut Vec<(String, String)>, name: &str, value: &str)
    ensures
        final(fields).deep_view() == old(fields).deep_view().push((name@, value@)),
{
    append(fields, (name.to_owned(), value.to_owned()));
}

fn nothing() -> (r: Vec<(String, String)>)
    ensures
        r.deep_view() == Seq::<(Seq<char>, Seq<char>)>::empty(),
{
    let r: Vec<(String, String)> = Vec::new();
    proof {
        assert(r.deep_view() =~= Seq::empty());
    }
    r
}

impl GenerateModuleInstruction {
    /// The pseudo-code of the program, which is nothing where none was given.
    pub open spec fn code(self) -> Seq<char> {
        match self.program_code {
            Some(code) => code@,
            None => Seq::empty(),
        }
    }

    /// A proposer with these grounds. It is aware of the program only where there is code to show.
    pub fn new(program_code: Option<String>, inputs: InstructionInputs) -> (r:
        GenerateModuleInstruction)
        ensures
            r.program_code == program_code,
            r.inputs == (InstructionInputs {
                program_aware: inputs.program_aware && program_code is Some,
                ..inputs
            }),
    {
        let aware: bool = inputs.program_aware && program_code.is_some();
        GenerateModuleInstruction {
            program_code,
            inputs: InstructionInputs { program_aware: aware, ..inputs },
        }
    }

    /// What to show for a description of the program, or nothing where it is not described.
    pub fn program_fields(&self, task_demos: &str) -> (r: Option<Vec<(String, String)>>)
        ensures
            match r {
                Some(fields) => {
                    &&& self.inputs.program_aware && self.program_code is Some
                    &&& fields.deep_view() == program_ask(self.code(), task_demos@)
                },
                None => !(self.inputs.program_aware && self.program_code is Some),
            },
    {
        match &self.program_code {
            Some(code) => {
                if !self.inputs.program_aware {
                    return None;
                }
                let mut fields = nothing();
                show(&mut fields, "program_code", code.as_str());
                show(&mut fields, "program_example", task_demos);
                proof {
                    assert(fields.deep_view() =~= program_ask(code@, task_demos@));
                }
                Some(fields)
            },
            None => None,
        }
    }

    /// What to show for a description of the module, given the model's description of the program.
    pub fn module_fields(&self, described: &str, task_demos: &str, module: &str) -> (r: Option<
        Vec<(String, String)>,
    >)
        ensures
            match r {
                Some(fields) => {
                    &&& self.inputs.program_aware && self.program_code is Some
                    &&& fields.deep_view() == module_ask(
                        self.code(),
                        unwrapped(unlabelled(described@), '"'),
                        task_demos@,
                        module@,
                    )
                },
                None => !(self.inputs.program_aware && self.program_code is Some),
            },
    {
        match &self.program_code {
            Some(code) => {
                if !self.inputs.program_aware {
                    return None;
                }
                let description = strip_prefix(described);
                let mut fields = nothing();
                show(&mut fields, "program_code", code.as_str());
                show(&mut fields, "program_description", description.as_str());
                show(&mut fields, "program_example", task_demos);
                show(&mut fields, "module", module);
                proof {
                    assert(fields.deep_view() =~= module_ask(
                        code@,
                        description@,
                        task_demos@,
                        module@,
                    ));
                }
                Some(fields)
            },
            None => None,
        }
    }

    /// The two descriptions a proposal is given: the model's own where it was asked, the label
    /// taken off the program's, and fixed words where it was not.
    pub fn describe(&self, replies: Option<(&str, &str)>) -> (r: (String, String))
        ensures
            (r.0@, r.1@) == match replies {
                Some((program, module)) => (unwrapped(unlabelled(program@), '"'), module@),
                None => ("Not available"@, "Not provided"@),
            },
    {
        match replies {
            Some((program, module)) => (strip_prefix(program), module.to_owned()),
            None => ("Not available".to_owned(), "Not provided".to_owned()),
        }
    }

    /// What to show for a proposal.
    pub fn forward(
        &self,
        predictor: &Signature,
        task_demos: &str,
        data_summary: &str,
        previous_instructions: &str,
        descriptions: &(String, String),
        tip: Option<&str>,
    ) -> (r: Vec<(String, String)>)
        ensures
            r.deep_view() == instruction_ask(
                self.inputs,
                self.code(),
                predictor.deep_view(),
                task_demos@,
                data_summary@,
                previous_instructions@,
                (descriptions.0@, descriptions.1@),
                match tip {
                    Some(text) => text@,
                    None => Seq::empty(),
                },
            ),
    {
        let module = module_code(predictor);
        let mut fields = nothing();
        if self.inputs.dataset_summary {
            show(&mut fields, "dataset_description", data_summary);
        }
        if self.inputs.program_aware {
            let code: String = match &self.program_code {
                Some(code) => code.clone(),
                None => String::new(),
            };
            show(&mut fields, "program_code", code.as_str());
            show(&mut fields, "program_description", descriptions.0.as_str());
            show(&mut fields, "module", module.as_str());
            show(&mut fields, "module_description", descriptions.1.as_str());
        }
        show(&mut fields, "task_demos", task_demos);
        if self.inputs.instruct_history {
            show(&mut fields, "previous_instructions", previous_instructions);
        }
        show(&mut fields, "basic_instruction", predictor.instructions.as_str());
        if self.inputs.tip {
            let text: String = match tip {
                Some(text) => text.to_owned(),
                None => String::new(),
            };
            show(&mut fields, "tip", text.as_str());
        }
        proof {
            assert(fields.deep_view() =~= instruction_ask(
                self.inputs,
                self.code(),
                predictor.deep_view(),
                task_demos@,
                data_summary@,
                previous_instructions@,
                (descriptions.0@, descriptions.1@),
                match tip {
                    Some(text) => text@,
                    None => Seq::empty(),
                },
            ));
        }
        fields
    }
}

/// A text that opens with no label keeps every character but the quotes at its ends.
pub proof fn law_a_text_without_a_label_is_kept(text: Seq<char>)
    requires
        past_label(text.skip(run(text, Class::Lead) as int), 5) is None,
    ensures
        unwrapped(unlabelled(text), '"') == unwrapped(text, '"'),
{
}

proof fn lemma_run_of(part: Seq<char>, rest: Seq<char>, class: Class)
    requires
        forall|i: int| 0 <= i < part.len() ==> class.holds(#[trigger] part[i]),
        rest.len() > 0 ==> !class.holds(rest[0]),
    ensures
        run(part + rest, class) == part.len(),
    decreases part.len(),
{
    let s = part + rest;
    if part.len() > 0 {
        assert(class.holds(part[0]));
        let tail = part.skip(1);
        assert forall|i: int| 0 <= i < tail.len() implies class.holds(#[trigger] tail[i]) by {
            assert(tail[i] == part[i + 1]);
        }
        assert(s.skip(1) =~= tail + rest);
        lemma_run_of(tail, rest, class);
    } else {
        assert(s =~= rest);
    }
}

/// Whether a text is a word of a label: letters and digits, `_`, `'` and `-`, and at least one.
pub open spec fn is_label_word(word: Seq<char>) -> bool {
    word.len() > 0 && forall|i: int|
        0 <= i < word.len() ==> (is_letter_or_digit(#[trigger] word[i]) || word[i] == '_' || word[i]
            == '\'' || word[i] == '-')
}

/// Whether a text is white space throughout.
pub open spec fn is_blank(gap: Seq<char>) -> bool {
    forall|i: int| 0 <= i < gap.len() ==> is_white_space(#[trigger] gap[i])
}

/// A label's last word, its colon and the white space behind it are taken off together, and what
/// follows is left as it is. An earlier word of a label goes with the white space behind it, and
/// uses up one of the words a label may have.
pub proof fn law_a_label_is_taken_off_word_by_word(
    word: Seq<char>,
    gap: Seq<char>,
    rest: Seq<char>,
    words: nat,
)
    requires
        is_label_word(word),
        is_blank(gap),
        rest.len() > 0 ==> !is_white_space(rest[0]),
    ensures
        past_label(word + ":"@ + gap + rest, words + 1) == Some(rest),
        gap.len() > 0 && (rest.len() > 0 ==> rest[0] != ':') ==> past_label(
            word + gap + rest,
            words + 1,
        ) == past_label(rest, words),
        past_label(rest, 0) is None,
{
    reveal_strlit(":");
    let labelled = word + ":"@ + gap + rest;
    let tail = ":"@ + gap + rest;
    assert(labelled =~= word + tail);
    assert(!Class::Word.holds(':'));
    assert forall|i: int| 0 <= i < word.len() implies Class::Word.holds(#[trigger] word[i]) by {}
    lemma_run_of(word, tail, Class::Word);
    assert(labelled.skip(word.len() as int) =~= tail);
    assert(tail.skip(1) =~= gap + rest);
    assert forall|i: int| 0 <= i < gap.len() implies Class::Space.holds(#[trigger] gap[i]) by {}
    lemma_run_of(gap, rest, Class::Space);
    assert((gap + rest).skip(gap.len() as int) =~= rest);
    if gap.len() > 0 {
        let s = word + gap + rest;
        let after = gap + rest;
        assert(s =~= word + after);
        assert(is_white_space(gap[0]));
        assert(after[0] == gap[0]);
        assert(!Class::Word.holds(gap[0]));
        lemma_run_of(word, after, Class::Word);
        assert(s.skip(word.len() as int) =~= after);
    }
}

/// Asterisks and white space before a label go with it, and a text that opens with no label stays
/// whole.
pub proof fn law_what_leads_a_label_goes_with_it(lead: Seq<char>, rest: Seq<char>)
    requires
        forall|i: int|
            0 <= i < lead.len() ==> (#[trigger] lead[i] == '*' || is_white_space(lead[i])),
        rest.len() > 0 ==> rest[0] != '*' && !is_white_space(rest[0]),
    ensures
        past_label(rest, 5) matches Some(kept) ==> unlabelled(lead + rest) == kept,
        past_label(rest, 5) is None ==> unlabelled(lead + rest) == lead + rest,
{
    assert forall|i: int| 0 <= i < lead.len() implies Class::Lead.holds(#[trigger] lead[i]) by {}
    lemma_run_of(lead, rest, Class::Lead);
    assert((lead + rest).skip(lead.len() as int) =~= rest);
}

/// A text without a colon has no label.
pub proof fn law_no_label_without_a_colon(text: Seq<char>, words: nat)
    requires
        !text.contains(':'),
    ensures
        past_label(text, words) is None,
    decreases words,
{
    if words > 0 {
        lemma_run_fits(text, Class::Word);
        let word = run(text, Class::Word) as int;
        let after = text.skip(word);
        assert forall|i: int| 0 <= i < after.len() implies after[i] != ':' by {
            assert(after[i] == text[word + i]);
        }
        lemma_run_fits(after, Class::Space);
        let spaces = run(after, Class::Space) as int;
        let rest = after.skip(spaces);
        assert forall|i: int| 0 <= i < rest.len() implies rest[i] != ':' by {
            assert(rest[i] == after[spaces + i]);
        }
        law_no_label_without_a_colon(rest, (words - 1) as nat);
    }
}

proof fn lemma_run_fits(s: Seq<char>, class: Class)
    ensures
        run(s, class) <= s.len(),
    decreases s.len(),
{
    if s.len() > 0 && class.holds(s[0]) {
        lemma_run_fits(s.skip(1), class);
    }
}

/// A proposal is always shown the predictor's own instruction and the demos, and each of the other
/// grounds exactly where it is on, under its own name.
pub proof fn law_a_proposal_is_shown_the_grounds_that_are_on(
    inputs: InstructionInputs,
    program_code: Seq<char>,
    predictor: SignatureModel,
    task_demos: Seq<char>,
    data_summary: Seq<char>,
    previous_instructions: Seq<char>,
    descriptions: (Seq<char>, Seq<char>),
    tip: Seq<char>,
)
    ensures
        ({
            let ask = instruction_ask(
                inputs,
                program_code,
                predictor,
                task_demos,
                data_summary,
                previous_instructions,
                descriptions,
                tip,
            );
            let s: int = if inputs.dataset_summary {
                1
            } else {
                0
            };
            let p: int = if inputs.program_aware {
                4
            } else {
                0
            };
            let h: int = if inputs.instruct_history {
                1
            } else {
                0
            };
            let t: int = if inputs.tip {
                1
            } else {
                0
            };
            &&& ask.len() == s + p + 1 + h + 1 + t
            &&& ask[s + p] == ("task_demos"@, task_demos)
            &&& ask[s + p + 1 + h] == ("basic_instruction"@, predictor.instructions)
            &&& inputs.dataset_summary ==> ask[0] == ("dataset_description"@, data_summary)
            &&& inputs.program_aware ==> ask[s] == ("program_code"@, program_code) && ask[s + 1] == (
                "program_description"@,
                descriptions.0,
            ) && ask[s + 2].0 == "module"@ && ask[s + 2].1 == "Predict("@ + joined(
                Seq::new(predictor.inputs.len(), |i: int| predictor.inputs[i].name),
                ", "@,
            ) + ") -> "@ + joined(
                Seq::new(predictor.outputs.len(), |i: int| predictor.outputs[i].name),
                ", "@,
            ) && ask[s + 3] == ("module_description"@, descriptions.1)
            &&& inputs.instruct_history ==> ask[s + p + 1] == (
                "previous_instructions"@,
                previous_instructions,
            )
            &&& inputs.tip ==> ask[s + p + 1 + h + 1] == ("tip"@, tip)
        }),
{
    assert(names_of(predictor.inputs) =~= Seq::new(
        predictor.inputs.len(),
        |i: int| predictor.inputs[i].name,
    ));
    assert(names_of(predictor.outputs) =~= Seq::new(
        predictor.outputs.len(),
        |i: int| predictor.outputs[i].name,
    ));
}

/// A description of the program is asked for with its code and the demos, and one of a module with
/// the program's description beside them.
pub proof fn law_descriptions_are_asked_for_in_context(
    program_code: Seq<char>,
    program_description: Seq<char>,
    task_demos: Seq<char>,
    module: Seq<char>,
)
    ensures
        ({
            let whole = program_ask(program_code, task_demos);
            let part = module_ask(program_code, program_description, task_demos, module);
            &&& whole.len() == 2
            &&& whole[0] == ("program_code"@, program_code)
            &&& whole[1] == ("program_example"@, task_demos)
            &&& part.len() == 4
            &&& part[0] == ("program_code"@, program_code)
            &&& part[1] == ("program_description"@, program_description)
            &&& part[2] == ("program_example"@, task_demos)
            &&& part[3] == ("module"@, module)
        }),
{
}

} // verus!
