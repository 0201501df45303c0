//! Labelled rows: named values in order, and which of the names are inputs.
use vstd::prelude::*;
use crate::duplicate::{append, Duplicate};
use crate::entries::{find, get, has, insert, lookup, put};
use crate::text::same_text;

verus! {

/// A field's value, by what is read of it: the text of a string, and of anything else the compact
/// JSON and the form a Python program prints.
#[derive(Debug)]
pub enum Value {
    Text(String),
    Other { json: String, repr: String },
}

/// What a [`Value`] holds.
#[verifier::ext_equal]
pub enum ValueModel {
    Text(Seq<char>),
    Other { json: Seq<char>, repr: Seq<char> },
}

impl DeepView for Value {
    type V = ValueModel;

    open spec fn deep_view(&self) -> ValueModel {
        match *self {
            Value::Text(text) => ValueModel::Text(text@),
            Value::Other { json, repr } => ValueModel::Other { json: json@, repr: repr@ },
        }
    }
}

impl Duplicate for Value {
    fn duplicate(&self) -> (r: Self) {
        match self {
            Value::Text(text) => Value::Text(text.clone()),
            Value::Other { json, repr } => Value::Other { json: json.clone(), repr: repr.clone() },
        }
    }
}

impl Clone for Value {
    fn clone(&self) -> (r: Self)
        ensures
            r.deep_view() == self.deep_view(),
    {
        self.duplicate()
    }
}

impl Value {
    /// A string value.
    pub fn text(text: &str) -> (r: Value)
        ensures
            r.deep_view() == ValueModel::Text(text@),
    {
        Value::Text(text.to_owned())
    }

    /// The truth value `true`.
    pub fn yes() -> (r: Value)
        ensures
            r.deep_view() == yes_model(),
    {
        Value::Other { json: "true".to_owned(), repr: "True".to_owned() }
    }

    /// The text of a string value.
    pub fn as_str(&self) -> (r: Option<&str>)
        ensures
            match (self.deep_view(), r) {
                (ValueModel::Text(text), Some(s)) => s@ == text,
                (ValueModel::Other { .. }, None) => true,
                _ => false,
            },
    {
        match self {
            Value::Text(text) => Some(text.as_str()),
            Value::Other { .. } => None,
        }
    }

    /// Whether two values are the same.
    pub fn same(&self, other: &Value) -> (r: bool)
        ensures
            r == (self.deep_view() == other.deep_view()),
    {
        match (self, other) {
            (Value::Text(a), Value::Text(b)) => same_text(a.as_str(), b.as_str()),
            (Value::Other { json: a, repr: b }, Value::Other { json: c, repr: d }) => same_text(
                a.as_str(),
                c.as_str(),
            ) && same_text(b.as_str(), d.as_str()),
            _ => false,
        }
    }
}

/// The truth value `true`, as both forms print it.
pub open spec fn yes_model() -> ValueModel {
    ValueModel::Other { json: "true"@, repr: "True"@ }
}

/// One row: its fields in the order they were written, and the names declared as its inputs where
/// that has been said.
#[derive(Debug)]
pub struct Example {
    pub fields: Vec<(String, Value)>,
    pub input_keys: Option<Vec<String>>,
}

/// What an [`Example`] holds.
#[verifier::ext_equal]
pub struct ExampleModel {
    pub fields: Seq<(Seq<char>, ValueModel)>,
    pub input_keys: Option<Seq<Seq<char>>>,
}

impl ExampleModel {
    /// Whether `name` is declared an input.
    pub open spec fn is_input(self, name: Seq<char>) -> bool {
        match self.input_keys {
            Some(keys) => keys.contains(name),
            None => false,
        }
    }

    /// The row cut down to its declared inputs, in its own order, with the same declaration.
    pub open spec fn inputs(self) -> ExampleModel {
        ExampleModel {
            fields: self.fields.filter(|f: (Seq<char>, ValueModel)| self.is_input(f.0)),
            input_keys: self.input_keys,
        }
    }

    /// What a field holds.
    pub open spec fn get(self, name: Seq<char>) -> Option<ValueModel> {
        lookup(self.fields, name)
    }

    /// The text of a field, which is nothing where the field is absent or not a string.
    pub open spec fn text(self, name: Seq<char>) -> Seq<char> {
        match self.get(name) {
            Some(ValueModel::Text(text)) => text,
            _ => Seq::empty(),
        }
    }
}

impl DeepView for Example {
    type V = ExampleModel;

    open spec fn deep_view(&self) -> ExampleModel {
        ExampleModel {
            fields: self.fields.deep_view(),
            input_keys: self.input_keys.deep_view(),
        }
    }
}

impl Duplicate for Example {
    fn duplicate(&self) -> (r: Self) {
        Example { fields: self.fields.duplicate(), input_keys: self.input_keys.duplicate() }
    }
}

impl Clone for Example {
    fn clone(&self) -> (r: Self)
        ensures
            r.deep_view() == self.deep_view(),
    {
        self.duplicate()
    }
}

impl Default for Example {
    fn default() -> (r: Self)
        ensures
            r.deep_view() == (ExampleModel { fields: Seq::empty(), input_keys: None }),
    {
        let r = Example { fields: Vec::new(), input_keys: None };
        proof {
            assert(r.deep_view().fields =~= Seq::empty());
        }
        r
    }
}

/// Whether two lists of names are the same.
fn same_names(a: &Vec<String>, b: &Vec<String>) -> (r: bool)
    ensures
        r == (a.deep_view() == b.deep_view()),
{
    if a.len() != b.len() {
        proof {
            assert(a.deep_view().len() != b.deep_view().len());
        }
        return false;
    }
    let mut i: usize = 0;
    while i < a.len()
        invariant
            i <= a@.len(),
            a@.len() == b@.len(),
            forall|j: int| 0 <= j < i ==> a.deep_view()[j] == b.deep_view()[j],
        decreases a@.len() - i,
    {
        if !same_text(a[i].as_str(), b[i].as_str()) {
            proof {
                assert(a.deep_view()[i as int] != b.deep_view()[i as int]);
            }
            return false;
        }
        i = i + 1;
    }
    proof {
        assert(a.deep_view() =~= b.deep_view());
    }
    true
}

/// Whether a list of names holds `name`.
pub fn names_hold(names: &Vec<String>, name: &str) -> (r: bool)
    ensures
        r == names.deep_view().contains(name@),
{
    let mut i: usize = 0;
    while i < names.len()
        invariant
            i <= names@.len(),
            forall|j: int| 0 <= j < i ==> names.deep_view()[j] != name@,
        decreases names@.len() - i,
    {
        if same_text(names[i].as_str(), name) {
            proof {
                assert(names.deep_view()[i as int] == name@);
            }
            return true;
        }
        i = i + 1;
    }
    false
}

impl Example {
    /// A row with no fields, whose inputs have not been declared.
    pub fn new() -> (r: Example)
        ensures
            r.deep_view() == (ExampleModel { fields: Seq::empty(), input_keys: None }),
    {
        Example::default()
    }

    /// Writes a field, in the place its name already has or else at the end.
    pub fn set(&mut self, name: &str, value: Value)
        ensures
            final(self).deep_view() == (ExampleModel {
                fields: put(old(self).deep_view().fields, name@, value.deep_view()),
                input_keys: old(self).deep_view().input_keys,
            }),
    {
        insert(&mut self.fields, name.to_owned(), value);
    }

    /// The same row with one more field.
    pub fn with(self, name: &str, value: Value) -> (r: Example)
        ensures
            r.deep_view() == (ExampleModel {
                fields: put(self.deep_view().fields, name@, value.deep_view()),
                input_keys: self.deep_view().input_keys,
            }),
    {
        let mut r = self;
        r.set(name, value);
        r
    }

    /// The same row with these names declared its inputs.
    pub fn with_inputs(self, keys: Vec<String>) -> (r: Example)
        ensures
            r.deep_view() == (ExampleModel {
                fields: self.deep_view().fields,
                input_keys: Some(keys.deep_view()),
            }),
    {
        Example { fields: self.fields, input_keys: Some(keys) }
    }

    /// What a field holds.
    pub fn get(&self, name: &str) -> (r: Option<&Value>)
        ensures
            match r {
                Some(value) => self.deep_view().get(name@) == Some(value.deep_view()),
                None => self.deep_view().get(name@) is None,
            },
    {
        get(&self.fields, name)
    }

    /// Whether there is a field of that name.
    pub fn has(&self, name: &str) -> (r: bool)
        ensures
            r == has(self.deep_view().fields, name@),
    {
        find(&self.fields, name) < self.fields.len()
    }

    /// The text of a field, which is nothing where the field is absent or not a string.
    pub fn text(&self, name: &str) -> (r: String)
        ensures
            r@ == self.deep_view().text(name@),
    {
        match self.get(name) {
            Some(value) => match value {
                Value::Text(text) => text.clone(),
                Value::Other { .. } => String::new(),
            },
            None => String::new(),
        }
    }

    /// Whether `name` is declared an input.
    pub fn is_input(&self, name: &str) -> (r: bool)
        ensures
            r == self.deep_view().is_input(name@),
    {
        match &self.input_keys {
            Some(keys) => names_hold(keys, name),
            None => false,
        }
    }

    /// The row cut down to its declared inputs, or nothing where no inputs were declared.
    pub fn inputs(&self) -> (r: Option<Example>)
        ensures
            match r {
                Some(inputs) => self.input_keys is Some && inputs.deep_view()
                    == self.deep_view().inputs(),
                None => self.input_keys is None,
            },
    {
        if self.input_keys.is_none() {
            return None;
        }
        let mut fields: Vec<(String, Value)> = Vec::new();
        let mut i: usize = 0;
        let ghost keep = |f: (Seq<char>, ValueModel)| self.deep_view().is_input(f.0);
        while i < self.fields.len()
            invariant
                i <= self.fields@.len(),
                keep == (|f: (Seq<char>, ValueModel)| self.deep_view().is_input(f.0)),
                fields.deep_view() == self.fields.deep_view().take(i as int).filter(keep),
            decreases self.fields@.len() - i,
        {
            let ghost before = self.fields.deep_view().take(i as int);
            let ghost after = self.fields.deep_view().take(i + 1);
            proof {
                assert(after.drop_last() =~= before);
                reveal(Seq::filter);
            }
            if self.is_input(self.fields[i].0.as_str()) {
                append(&mut fields, self.fields[i].duplicate());
            }
            i = i + 1;
        }
        proof {
            assert(self.fields.deep_view().take(i as int) =~= self.fields.deep_view());
        }
        Some(Example { fields, input_keys: self.input_keys.duplicate() })
    }

    /// Whether two rows hold the same fields in the same order and declare the same inputs.
    pub fn same(&self, other: &Example) -> (r: bool)
        ensures
            r == (self.deep_view() == other.deep_view()),
    {
        let keys = match (&self.input_keys, &other.input_keys) {
            (Some(a), Some(b)) => same_names(a, b),
            (None, None) => true,
            _ => false,
        };
        if !keys || self.fields.len() != other.fields.len() {
            proof {
                if self.deep_view() == other.deep_view() {
                    assert(self.fields.deep_view().len() == other.fields.deep_view().len());
                    assert(self.deep_view().input_keys == other.deep_view().input_keys);
                }
            }
            return false;
        }
        let mut i: usize = 0;
        while i < self.fields.len()
            invariant
                i <= self.fields@.len(),
                self.fields@.len() == other.fields@.len(),
                forall|j: int|
                    0 <= j < i ==> self.fields.deep_view()[j] == other.fields.deep_view()[j],
            decreases self.fields@.len() - i,
        {
            let a = &self.fields[i];
            let b = &other.fields[i];
            if !same_text(a.0.as_str(), b.0.as_str()) || !a.1.same(&b.1) {
                proof {
                    assert(self.fields.deep_view()[i as int] != other.fields.deep_view()[i as int]);
                }
                return false;
            }
            i = i + 1;
        }
        proof {
            assert(self.fields.deep_view() =~= other.fields.deep_view());
        }
        true
    }
}

/// What a program answered: the fields read out of a completion, and the completion itself.
#[derive(Debug)]
pub struct Prediction {
    pub example: Example,
    pub completion: String,
}

/// What a [`Prediction`] holds.
#[verifier::ext_equal]
pub struct PredictionModel {
    pub example: ExampleModel,
    pub completion: Seq<char>,
}

impl DeepView for Prediction {
    type V = PredictionModel;

    open spec fn deep_view(&self) -> PredictionModel {
        PredictionModel { example: self.example.deep_view(), completion: self.completion@ }
    }
}

impl Duplicate for Prediction {
    fn duplicate(&self) -> (r: Self) {
        Prediction { example: self.example.duplicate(), completion: self.completion.clone() }
    }
}

impl Clone for Prediction {
    fn clone(&self) -> (r: Self)
        ensures
            r.deep_view() == self.deep_view(),
    {
        self.duplicate()
    }
}

impl Prediction {
    pub fn new(example: Example, completion: &str) -> (r: Prediction)
        ensures
            r.deep_view() == (PredictionModel {
                example: example.deep_view(),
                completion: completion@,
            }),
    {
        Prediction { example, completion: completion.to_owned() }
    }
}

/// A row cut down to its inputs keeps every field it declares an input, in order, and no other; a row
/// that declares none keeps nothing.
pub proof fn law_the_inputs_are_the_declared_fields(
    fields: Seq<(Seq<char>, ValueModel)>,
    keys: Option<Seq<Seq<char>>>,
    name: Seq<char>,
    value: ValueModel,
)
    ensures
        ({
            let row = ExampleModel { fields, input_keys: keys };
            let longer = ExampleModel { fields: fields.push((name, value)), input_keys: keys };
            let none = ExampleModel { fields: Seq::empty(), input_keys: keys };
            &&& none.inputs().fields.len() == 0
            &&& row.inputs().input_keys == keys
            &&& keys is Some && keys->0.contains(name) ==> longer.inputs().fields
                == row.inputs().fields.push((name, value))
            &&& keys is None || !keys->0.contains(name) ==> longer.inputs().fields
                == row.inputs().fields
        }),
{
    let row = ExampleModel { fields, input_keys: keys };
    let longer = ExampleModel { fields: fields.push((name, value)), input_keys: keys };
    let keep = |f: (Seq<char>, ValueModel)| row.is_input(f.0);
    let keep_longer = |f: (Seq<char>, ValueModel)| longer.is_input(f.0);
    reveal(Seq::filter);
    assert(fields.push((name, value)).drop_last() =~= fields);
    crate::entries::lemma_tests_that_agree(fields, keep, keep_longer);
}

/// A field's text is the string it holds, and nothing where it holds no string or is not there.
pub proof fn law_a_fields_text_is_the_string_it_holds(
    row: ExampleModel,
    name: Seq<char>,
    text: Seq<char>,
)
    ensures
        row.get(name) == Some(ValueModel::Text(text)) ==> row.text(name) == text,
        !(row.get(name) is Some && row.get(name)->0 is Text) ==> row.text(name).len() == 0,
{
}

} // verus!
