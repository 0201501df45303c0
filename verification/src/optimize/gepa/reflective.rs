//! What a reflection reads of a run: texts, named parts and lists, nested as deep as they come.
use vstd::prelude::*;
use crate::duplicate::{append, Duplicate};
use crate::example::{Example, ExampleModel, Value, ValueModel};

verus! {

/// One value of a record shown to a reflection model.
#[derive(Debug)]
pub enum Reflective {
    Text(String),
    Named(Vec<(String, Reflective)>),
    List(Vec<Reflective>),
}

/// What a [`Reflective`] holds.
pub enum ReflectiveModel {
    Text(Seq<char>),
    Named(Seq<(Seq<char>, ReflectiveModel)>),
    List(Seq<ReflectiveModel>),
}

/// One record: named parts in the order a prompt shows them.
pub type ReflectiveSample = Vec<(String, Reflective)>;

/// The records gathered for one component.
pub type ReflectiveDataset = Vec<ReflectiveSample>;

impl Reflective {
    pub open spec fn model(self) -> ReflectiveModel
        decreases self,
    {
        match self {
            Reflective::Text(text) => ReflectiveModel::Text(text@),
            Reflective::Named(entries) => ReflectiveModel::Named(
                Seq::new(
                    entries@.len(),
                    |i: int|
                        if 0 <= i < entries@.len() {
                            (entries@[i].0@, entries@[i].1.model())
                        } else {
                            arbitrary()
                        },
                ),
            ),
            Reflective::List(items) => ReflectiveModel::List(
                Seq::new(
                    items@.len(),
                    |i: int|
                        if 0 <= i < items@.len() {
                            items@[i].model()
                        } else {
                            arbitrary()
                        },
                ),
            ),
        }
    }
}

impl DeepView for Reflective {
    type V = ReflectiveModel;

    open spec fn deep_view(&self) -> ReflectiveModel {
        self.model()
    }
}

/// The model of named parts is that of its entries.
pub proof fn lemma_named(entries: Vec<(String, Reflective)>)
    ensures
        Reflective::Named(entries).deep_view() == ReflectiveModel::Named(entries.deep_view()),
{
    let whole = Reflective::Named(entries);
    assert(whole.model()->Named_0 =~= entries.deep_view());
}

/// A list's model is that of its items.
pub proof fn lemma_list(items: Vec<Reflective>)
    ensures
        Reflective::List(items).deep_view() == ReflectiveModel::List(items.deep_view()),
{
    let whole = Reflective::List(items);
    assert(whole.model()->List_0 =~= items.deep_view());
}

/// A named part is smaller than the value it is part of.
pub proof fn lemma_part_is_smaller(whole: Reflective, entries: Vec<(String, Reflective)>, i: int)
    requires
        whole == Reflective::Named(entries),
        0 <= i < entries@.len(),
    ensures
        decreases_to!(whole => entries@[i].1),
{
    assert(decreases_to!(whole => whole->Named_0));
    assert(decreases_to!(entries => entries@));
    assert(decreases_to!(entries@ => entries@[i]));
    assert(decreases_to!(entries@[i] => entries@[i].1));
}

/// An item is smaller than the list it stands in.
pub proof fn lemma_item_is_smaller(whole: Reflective, items: Vec<Reflective>, i: int)
    requires
        whole == Reflective::List(items),
        0 <= i < items@.len(),
    ensures
        decreases_to!(whole => items@[i]),
{
    assert(decreases_to!(whole => whole->List_0));
    assert(decreases_to!(items => items@));
    assert(decreases_to!(items@ => items@[i]));
}

impl Duplicate for Reflective {
    fn duplicate(&self) -> (r: Self)
        decreases self,
    {
        match self {
            Reflective::Text(text) => Reflective::Text(text.clone()),
            Reflective::Named(entries) => {
                let mut copied: Vec<(String, Reflective)> = Vec::new();
                let mut i: usize = 0;
                while i < entries.len()
                    invariant
                        i <= entries@.len(),
                        *self == Reflective::Named(*entries),
                        copied.deep_view() =~= entries.deep_view().take(i as int),
                    decreases entries@.len() - i,
                {
                    proof {
                        lemma_part_is_smaller(*self, *entries, i as int);
                    }
                    let inner = entries[i].1.duplicate();
                    append(&mut copied, (entries[i].0.clone(), inner));
                    i = i + 1;
                }
                proof {
                    assert(copied.deep_view() =~= entries.deep_view());
                    lemma_named(*entries);
                    lemma_named(copied);
                }
                Reflective::Named(copied)
            },
            Reflective::List(items) => {
                let mut copied: Vec<Reflective> = Vec::new();
                let mut i: usize = 0;
                while i < items.len()
                    invariant
                        i <= items@.len(),
                        *self == Reflective::List(*items),
                        copied.deep_view() =~= items.deep_view().take(i as int),
                    decreases items@.len() - i,
                {
                    proof {
                        lemma_item_is_smaller(*self, *items, i as int);
                    }
                    let inner = items[i].duplicate();
                    append(&mut copied, inner);
                    i = i + 1;
                }
                proof {
                    assert(copied.deep_view() =~= items.deep_view());
                    lemma_list(*items);
                    lemma_list(copied);
                }
                Reflective::List(copied)
            },
        }
    }
}

/// How a value prints: text as it is, anything else as its representation.
pub open spec fn printed(value: ValueModel) -> Seq<char> {
    match value {
        ValueModel::Text(text) => text,
        ValueModel::Other { repr, .. } => repr,
    }
}

/// [`printed`], computed.
pub fn print(value: &Value) -> (r: String)
    ensures
        r@ == printed(value.deep_view()),
{
    match value {
        Value::Text(text) => text.clone(),
        Value::Other { repr, .. } => repr.clone(),
    }
}

/// A row's fields as a reflection shows them, each as it prints.
pub open spec fn shown_fields(example: ExampleModel) -> Seq<(Seq<char>, ReflectiveModel)> {
    Seq::new(
        example.fields.len(),
        |i: int| (example.fields[i].0, ReflectiveModel::Text(printed(example.fields[i].1))),
    )
}

/// Every field of a row is shown, under its own name and in its own place: a text as it is, any
/// other value as its representation.
pub proof fn law_every_field_is_shown(example: ExampleModel, i: int)
    ensures
        shown_fields(example).len() == example.fields.len(),
        0 <= i < example.fields.len() ==> shown_fields(example)[i].0 == example.fields[i].0,
        0 <= i < example.fields.len() ==> shown_fields(example)[i].1 == ReflectiveModel::Text(
            match example.fields[i].1 {
                ValueModel::Text(text) => text,
                ValueModel::Other { repr, .. } => repr,
            },
        ),
{
}

/// A row's fields by name, each as it prints.
pub fn rendered_map(example: &Example) -> (r: Reflective)
    ensures
        r.deep_view() == ReflectiveModel::Named(shown_fields(example.deep_view())),
{
    let mut entries: Vec<(String, Reflective)> = Vec::new();
    let ghost all = shown_fields(example.deep_view());
    let mut i: usize = 0;
    while i < example.fields.len()
        invariant
            i <= example.fields@.len(),
            all == shown_fields(example.deep_view()),
            entries.deep_view() =~= all.take(i as int),
        decreases example.fields@.len() - i,
    {
        let shown = Reflective::Text(print(&example.fields[i].1));
        proof {
            assert(example.deep_view().fields[i as int] == (
                example.fields@[i as int].0@,
                example.fields@[i as int].1.deep_view(),
            ));
        }
        append(&mut entries, (example.fields[i].0.clone(), shown));
        i = i + 1;
    }
    proof {
        assert(entries.deep_view() =~= all);
        lemma_named(entries);
    }
    Reflective::Named(entries)
}

} // verus!
