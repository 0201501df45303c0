//! What a predictor is asked to do: its instructions, and the fields it reads and writes.
use vstd::prelude::*;
use crate::duplicate::{append, Duplicate};
use crate::text::{chars_of, same_text};

verus! {

/// A field a predictor is given.
#[derive(Debug)]
pub struct InField {
    pub name: String,
    pub desc: String,
    /// The label set for the field, where one was set.
    pub prefix: Option<String>,
    /// The type the field is annotated with.
    pub kind: String,
}

/// A field a predictor answers with.
#[derive(Debug)]
pub struct OutField {
    pub name: String,
    pub desc: String,
    /// The label set for the field, where one was set.
    pub prefix: Option<String>,
    /// The type the field is annotated with.
    pub kind: String,
}

/// What a field holds, whichever side it is on.
#[verifier::ext_equal]
pub struct FieldModel {
    pub name: Seq<char>,
    pub desc: Seq<char>,
    pub prefix: Option<Seq<char>>,
    pub kind: Seq<char>,
}

impl DeepView for InField {
    type V = FieldModel;

    open spec fn deep_view(&self) -> FieldModel {
        FieldModel {
            name: self.name@,
            desc: self.desc@,
            prefix: self.prefix.deep_view(),
            kind: self.kind@,
        }
    }
}

impl DeepView for OutField {
    type V = FieldModel;

    open spec fn deep_view(&self) -> FieldModel {
        FieldModel {
            name: self.name@,
            desc: self.desc@,
            prefix: self.prefix.deep_view(),
            kind: self.kind@,
        }
    }
}

impl Duplicate for InField {
    fn duplicate(&self) -> (r: Self) {
        InField {
            name: self.name.clone(),
            desc: self.desc.clone(),
            prefix: self.prefix.duplicate(),
            kind: self.kind.clone(),
        }
    }
}

impl Duplicate for OutField {
    fn duplicate(&self) -> (r: Self) {
        OutField {
            name: self.name.clone(),
            desc: self.desc.clone(),
            prefix: self.prefix.duplicate(),
            kind: self.kind.clone(),
        }
    }
}

impl Clone for InField {
    fn clone(&self) -> (r: Self)
        ensures
            r.deep_view() == self.deep_view(),
    {
        self.duplicate()
    }
}

impl Clone for OutField {
    fn clone(&self) -> (r: Self)
        ensures
            r.deep_view() == self.deep_view(),
    {
        self.duplicate()
    }
}

/// A field of that name and description, a string with no label set.
pub open spec fn plain_field(name: Seq<char>, desc: Seq<char>) -> FieldModel {
    FieldModel { name, desc, prefix: None, kind: "str"@ }
}

impl Default for InField {
    fn default() -> (r: Self)
        ensures
            r.deep_view() == plain_field(Seq::empty(), Seq::empty()),
    {
        InField { name: String::new(), desc: String::new(), prefix: None, kind: "str".to_owned() }
    }
}

impl Default for OutField {
    fn default() -> (r: Self)
        ensures
            r.deep_view() == plain_field(Seq::empty(), Seq::empty()),
    {
        OutField { name: String::new(), desc: String::new(), prefix: None, kind: "str".to_owned() }
    }
}

/// A string input field.
pub fn input(name: &str, desc: &str) -> (r: InField)
    ensures
        r.deep_view() == plain_field(name@, desc@),
{
    InField {
        name: name.to_owned(),
        desc: desc.to_owned(),
        prefix: None,
        kind: "str".to_owned(),
    }
}

/// A string output field.
pub fn output(name: &str, desc: &str) -> (r: OutField)
    ensures
        r.deep_view() == plain_field(name@, desc@),
{
    OutField {
        name: name.to_owned(),
        desc: desc.to_owned(),
        prefix: None,
        kind: "str".to_owned(),
    }
}

/// A task: what to do, what is given and what is asked for.
#[derive(Debug)]
pub struct Signature {
    pub instructions: String,
    pub inputs: Vec<InField>,
    pub outputs: Vec<OutField>,
}

/// What a [`Signature`] holds.
#[verifier::ext_equal]
pub struct SignatureModel {
    pub instructions: Seq<char>,
    pub inputs: Seq<FieldModel>,
    pub outputs: Seq<FieldModel>,
}

impl SignatureModel {
    /// Every field, inputs first.
    pub open spec fn fields(self) -> Seq<FieldModel> {
        self.inputs + self.outputs
    }
}

impl DeepView for Signature {
    type V = SignatureModel;

    open spec fn deep_view(&self) -> SignatureModel {
        SignatureModel {
            instructions: self.instructions@,
            inputs: self.inputs.deep_view(),
            outputs: self.outputs.deep_view(),
        }
    }
}

impl Duplicate for Signature {
    fn duplicate(&self) -> (r: Self) {
        Signature {
            instructions: self.instructions.clone(),
            inputs: self.inputs.duplicate(),
            outputs: self.outputs.duplicate(),
        }
    }
}

impl Clone for Signature {
    fn clone(&self) -> (r: Self)
        ensures
            r.deep_view() == self.deep_view(),
    {
        self.duplicate()
    }
}

/// The names of fields, in order.
pub open spec fn names_of(fields: Seq<FieldModel>) -> Seq<Seq<char>> {
    Seq::new(fields.len(), |i: int| fields[i].name)
}

fn same_prefix(a: &Option<String>, b: &Option<String>) -> (r: bool)
    ensures
        r == (a.deep_view() == b.deep_view()),
{
    match (a, b) {
        (Some(a), Some(b)) => same_text(a.as_str(), b.as_str()),
        (None, None) => true,
        _ => false,
    }
}

impl Signature {
    /// The names of the input fields, in declaration order.
    pub fn input_names(&self) -> (r: Vec<String>)
        ensures
            r.deep_view() == names_of(self.deep_view().inputs),
    {
        let mut r: Vec<String> = Vec::new();
        let mut i: usize = 0;
        while i < self.inputs.len()
            invariant
                i <= self.inputs@.len(),
                r.deep_view() == names_of(self.deep_view().inputs).take(i as int),
            decreases self.inputs@.len() - i,
        {
            append(&mut r, self.inputs[i].name.clone());
            proof {
                assert(names_of(self.deep_view().inputs).take(i + 1) =~= names_of(
                    self.deep_view().inputs,
                ).take(i as int).push(self.inputs@[i as int].name@));
            }
            i = i + 1;
        }
        proof {
            assert(names_of(self.deep_view().inputs).take(i as int) =~= names_of(
                self.deep_view().inputs,
            ));
        }
        r
    }

    /// The names of the output fields, in declaration order.
    pub fn output_names(&self) -> (r: Vec<String>)
        ensures
            r.deep_view() == names_of(self.deep_view().outputs),
    {
        let mut r: Vec<String> = Vec::new();
        let mut i: usize = 0;
        while i < self.outputs.len()
            invariant
                i <= self.outputs@.len(),
                r.deep_view() == names_of(self.deep_view().outputs).take(i as int),
            decreases self.outputs@.len() - i,
        {
            append(&mut r, self.outputs[i].name.clone());
            proof {
                assert(names_of(self.deep_view().outputs).take(i + 1) =~= names_of(
                    self.deep_view().outputs,
                ).take(i as int).push(self.outputs@[i as int].name@));
            }
            i = i + 1;
        }
        proof {
            assert(names_of(self.deep_view().outputs).take(i as int) =~= names_of(
                self.deep_view().outputs,
            ));
        }
        r
    }

    /// Whether two signatures state the same task: the same instructions and the same fields.
    pub fn equals(&self, other: &Signature) -> (r: bool)
        ensures
            r == (self.deep_view() == other.deep_view()),
    {
        if !same_text(self.instructions.as_str(), other.instructions.as_str())
            || self.inputs.len() != other.inputs.len() || self.outputs.len()
            != other.outputs.len() {
            proof {
                if self.deep_view() == other.deep_view() {
                    assert(self.deep_view().inputs.len() == other.deep_view().inputs.len());
                    assert(self.deep_view().outputs.len() == other.deep_view().outputs.len());
                }
            }
            return false;
        }
        let mut i: usize = 0;
        while i < self.inputs.len()
            invariant
                i <= self.inputs@.len(),
                self.inputs@.len() == other.inputs@.len(),
                forall|j: int|
                    0 <= j < i ==> self.inputs.deep_view()[j] == other.inputs.deep_view()[j],
            decreases self.inputs@.len() - i,
        {
            let a = &self.inputs[i];
            let b = &other.inputs[i];
            if !same_text(a.name.as_str(), b.name.as_str()) || !same_text(
                a.desc.as_str(),
                b.desc.as_str(),
            ) || !same_prefix(&a.prefix, &b.prefix) || !same_text(
                a.kind.as_str(),
                b.kind.as_str(),
            ) {
                proof {
                    assert(self.inputs.deep_view()[i as int] != other.inputs.deep_view()[i as int]);
                }
                return false;
            }
            i = i + 1;
        }
        let mut i: usize = 0;
        while i < self.outputs.len()
            invariant
                i <= self.outputs@.len(),
                self.outputs@.len() == other.outputs@.len(),
                forall|j: int|
                    0 <= j < i ==> self.outputs.deep_view()[j] == other.outputs.deep_view()[j],
            decreases self.outputs@.len() - i,
        {
            let a = &self.outputs[i];
            let b = &other.outputs[i];
            if !same_text(a.name.as_str(), b.name.as_str()) || !same_text(
                a.desc.as_str(),
                b.desc.as_str(),
            ) || !same_prefix(&a.prefix, &b.prefix) || !same_text(
                a.kind.as_str(),
                b.kind.as_str(),
            ) {
                proof {
                    assert(self.outputs.deep_view()[i as int]
                        != other.outputs.deep_view()[i as int]);
                }
                return false;
            }
            i = i + 1;
        }
        proof {
            assert(self.inputs.deep_view() =~= other.inputs.deep_view());
            assert(self.outputs.deep_view() =~= other.outputs.deep_view());
        }
        true
    }
}

/// The ASCII capital of a letter, and any other character as it is.
pub open spec fn capital(c: char) -> char {
    if 'a' <= c && c <= 'z' {
        ((c as u32) - 32) as char
    } else {
        c
    }
}

/// A field's name as words: the underscores become spaces, and each word opens with a capital.
pub open spec fn prefix_words(name: Seq<char>) -> Seq<char> {
    Seq::new(
        name.len(),
        |i: int|
            if name[i] == '_' {
                ' '
            } else if i == 0 || name[i - 1] == '_' {
                capital(name[i])
            } else {
                name[i]
            },
    )
}

/// [`capital`], computed.
pub fn capital_of(c: char) -> (r: char)
    ensures
        r == capital(c),
{
    if 'a' <= c && c <= 'z' {
        ((c as u8) - 32) as char
    } else {
        c
    }
}

/// [`prefix_words`], computed.
pub fn infer_prefix(name: &str) -> (r: String)
    ensures
        r@ == prefix_words(name@),
{
    let chars = chars_of(name);
    let mut r = String::new();
    let mut i: usize = 0;
    while i < chars.len()
        invariant
            i <= chars@.len(),
            chars@ == name@,
            r@ == prefix_words(name@).take(i as int),
        decreases chars@.len() - i,
    {
        let c: char = if chars[i] == '_' {
            ' '
        } else if i == 0 || chars[i - 1] == '_' {
            capital_of(chars[i])
        } else {
            chars[i]
        };
        r.push(c);
        proof {
            assert(prefix_words(name@).take(i + 1) =~= prefix_words(name@).take(i as int).push(c));
        }
        i = i + 1;
    }
    proof {
        assert(prefix_words(name@).take(i as int) =~= prefix_words(name@));
    }
    r
}

/// Names are listed for every field, in order, and the fields are the inputs and then the outputs.
pub proof fn law_every_field_is_named(fields: Seq<FieldModel>, field: FieldModel, i: int)
    ensures
        names_of(Seq::empty()).len() == 0,
        names_of(fields.push(field)) == names_of(fields).push(field.name),
        ({
            let signature = SignatureModel {
                instructions: Seq::empty(),
                inputs: fields,
                outputs: seq![field],
            };
            &&& signature.fields().len() == fields.len() + 1
            &&& signature.fields().last() == field
            &&& 0 <= i < fields.len() ==> signature.fields()[i] == fields[i]
        }),
{
    assert(names_of(fields.push(field)) =~= names_of(fields).push(field.name));
}

/// A name's words: a word on its own opens with its capital and keeps every other letter, and an
/// underscore between two names is one space between their words.
pub proof fn law_a_name_is_shown_word_by_word(first: char, rest: Seq<char>, others: Seq<char>)
    requires
        first != '_',
        !rest.contains('_'),
    ensures
        prefix_words(seq![first] + rest) == seq![capital(first)] + rest,
        prefix_words(seq![first] + rest + seq!['_'] + others) == seq![capital(first)] + rest
            + seq![' '] + prefix_words(others),
        prefix_words(Seq::empty()).len() == 0,
{
    let word = seq![first] + rest;
    let whole = word + seq!['_'] + others;
    assert forall|i: int| 0 <= i < word.len() implies word[i] != '_' by {
        if i > 0 {
            assert(word[i] == rest[i - 1]);
        }
    }
    assert(prefix_words(word) =~= seq![capital(first)] + rest);
    assert forall|i: int| 0 <= i < whole.len() implies prefix_words(whole)[i] == (seq![
        capital(first),
    ] + rest + seq![' '] + prefix_words(others))[i] by {
        if i < word.len() {
            assert(whole[i] == word[i]);
            assert(prefix_words(word)[i] == (seq![capital(first)] + rest)[i]);
            if i > 0 {
                assert(whole[i - 1] == word[i - 1]);
            }
        } else if i > word.len() {
            let j = i - word.len() - 1;
            assert(whole[i] == others[j]);
            if j > 0 {
                assert(whole[i - 1] == others[j - 1]);
            } else {
                assert(whole[i - 1] == '_');
            }
        }
    }
    assert(prefix_words(whole) =~= seq![capital(first)] + rest + seq![' '] + prefix_words(others));
}

/// The small letters have their capitals, in the order of the alphabet; nothing else changes.
pub proof fn law_letters_have_their_capitals(c: char)
    ensures
        'a' <= c <= 'z' ==> 'A' <= capital(c) <= 'Z' && (capital(c) as u32) - 0x41 == (c as u32)
            - 0x61,
        !('a' <= c <= 'z') ==> capital(c) == c,
{
}

} // verus!
