//! The markdown a dataset with media in it becomes, and the media taken out of it.
//!
//! Headings start at the third level inside a section and go no deeper than the sixth, an empty
//! part still leaves a blank line, and a custom type is replaced by a placeholder whose number
//! starts again with each example.
use vstd::prelude::*;
use vstd::string::StringExecFns;
use crate::duplicate::{append, append_all};
use crate::optimize::gepa::reflective::{
    lemma_item_is_smaller, lemma_list, lemma_named, lemma_part_is_smaller, Reflective,
    ReflectiveDataset, ReflectiveModel, ReflectiveSample,
};
use crate::text::{decimal, decimal_text, ends_with, join, joined, starts_with, trim, trimmed};

verus! {

/// The marks between which a custom type's serialized form stands.
#[derive(Debug)]
pub struct Marks {
    pub start: String,
    pub end: String,
}

/// What [`Marks`] holds.
#[verifier::ext_equal]
pub struct MarksModel {
    pub start: Seq<char>,
    pub end: Seq<char>,
}

impl DeepView for Marks {
    type V = MarksModel;

    open spec fn deep_view(&self) -> MarksModel {
        MarksModel { start: self.start@, end: self.end@ }
    }
}

impl MarksModel {
    /// Whether a text is a custom type's serialized form.
    pub open spec fn enclose(self, text: Seq<char>) -> bool {
        &&& text.len() >= self.start.len() && text.take(self.start.len() as int) == self.start
        &&& text.len() >= self.end.len() && text.skip(text.len() - self.end.len()) == self.end
    }
}

impl Marks {
    /// Whether a text is a custom type's serialized form.
    pub fn is_custom_type(&self, text: &str) -> (r: bool)
        ensures
            r == self.deep_view().enclose(text@),
    {
        starts_with(text, self.start.as_str()) && ends_with(text, self.end.as_str())
    }
}

/// The level of a heading one further in.
pub open spec fn deeper(level: nat) -> nat {
    if level + 1 < 6 {
        level + 1
    } else {
        6
    }
}

/// A heading's marks.
pub open spec fn hashes(level: nat) -> Seq<char>
    decreases level,
{
    if level == 0 {
        Seq::empty()
    } else {
        hashes((level - 1) as nat).push('#')
    }
}

/// What a value becomes, and the media found in it, `seen` others having been found before.
pub open spec fn rendered(
    value: ReflectiveModel,
    level: nat,
    seen: nat,
    marks: MarksModel,
) -> (Seq<char>, Seq<Seq<char>>)
    decreases value, 0nat,
{
    match value {
        ReflectiveModel::Text(text) => if marks.enclose(text) {
            ("[IMAGE-"@ + decimal(seen + 1) + " - see visual content]\n\n"@, seq![text])
        } else {
            (trimmed(text) + "\n\n"@, Seq::empty())
        },
        ReflectiveModel::Named(entries) => {
            let (text, media) = rendered_parts(entries, entries.len(), level, seen, marks);
            (if entries.len() == 0 {
                "\n"@
            } else {
                text
            }, media)
        },
        ReflectiveModel::List(items) => {
            let (text, media) = rendered_items(items, items.len(), level, seen, marks);
            (if items.len() == 0 {
                "\n"@
            } else {
                text
            }, media)
        },
    }
}

/// What the first `n` named parts become, each under its name.
pub open spec fn rendered_parts(
    entries: Seq<(Seq<char>, ReflectiveModel)>,
    n: nat,
    level: nat,
    seen: nat,
    marks: MarksModel,
) -> (Seq<char>, Seq<Seq<char>>)
    decreases entries, n,
{
    if n == 0 || n > entries.len() {
        (Seq::empty(), Seq::empty())
    } else {
        let (text, media) = rendered_parts(entries, (n - 1) as nat, level, seen, marks);
        let (inner, more) = rendered(entries[n - 1].1, deeper(level), seen + media.len(), marks);
        (text + (hashes(level) + " "@ + entries[n - 1].0 + "\n"@) + inner, media + more)
    }
}

/// What the first `n` items become, each under its number.
pub open spec fn rendered_items(
    items: Seq<ReflectiveModel>,
    n: nat,
    level: nat,
    seen: nat,
    marks: MarksModel,
) -> (Seq<char>, Seq<Seq<char>>)
    decreases items, n,
{
    if n == 0 || n > items.len() {
        (Seq::empty(), Seq::empty())
    } else {
        let (text, media) = rendered_items(items, (n - 1) as nat, level, seen, marks);
        let (inner, more) = rendered(items[n - 1], deeper(level), seen + media.len(), marks);
        (text + (hashes(level) + " Item "@ + decimal(n) + "\n"@) + inner, media + more)
    }
}

/// What the first `n` sections of an example become.
pub open spec fn rendered_sections(
    sample: Seq<(Seq<char>, ReflectiveModel)>,
    n: nat,
    marks: MarksModel,
) -> (Seq<char>, Seq<Seq<char>>)
    decreases n,
{
    if n == 0 || n > sample.len() {
        (Seq::empty(), Seq::empty())
    } else {
        let (text, media) = rendered_sections(sample, (n - 1) as nat, marks);
        let (inner, more) = rendered(sample[n - 1].1, 3, media.len(), marks);
        (text + ("## "@ + sample[n - 1].0 + "\n"@) + inner, media + more)
    }
}

/// One example as markdown.
pub open spec fn example_text(
    sample: Seq<(Seq<char>, ReflectiveModel)>,
    number: nat,
    marks: MarksModel,
) -> Seq<char> {
    ("# Example "@ + decimal(number) + "\n"@) + rendered_sections(sample, sample.len(), marks).0
}

/// Every example as markdown.
pub open spec fn example_texts(
    dataset: Seq<Seq<(Seq<char>, ReflectiveModel)>>,
    marks: MarksModel,
) -> Seq<Seq<char>> {
    Seq::new(dataset.len(), |i: int| example_text(dataset[i], (i + 1) as nat, marks))
}

/// All the media of a dataset, in the order the examples meet them.
pub open spec fn all_media(
    dataset: Seq<Seq<(Seq<char>, ReflectiveModel)>>,
    marks: MarksModel,
) -> Seq<Seq<char>>
    decreases dataset.len(),
{
    if dataset.len() == 0 {
        Seq::empty()
    } else {
        all_media(dataset.drop_last(), marks) + rendered_sections(
            dataset.last(),
            dataset.last().len(),
            marks,
        ).1
    }
}

/// A dataset as markdown, opened by a count of its media where it has any.
pub open spec fn dataset_text(
    dataset: Seq<Seq<(Seq<char>, ReflectiveModel)>>,
    marks: MarksModel,
) -> Seq<char> {
    let text = joined(example_texts(dataset, marks), "\n\n"@);
    let media = all_media(dataset, marks);
    if media.len() == 0 {
        text
    } else {
        "The examples below include visual content ("@ + decimal(media.len())
            + " images total). Please analyze both the text and visual elements when suggesting improvements.\n\n"@
            + text
    }
}

fn heading(level: usize) -> (r: String)
    ensures
        r@ == hashes(level as nat),
{
    let mut r: String = String::new();
    let mut i: usize = 0;
    proof {
        assert(r@ =~= hashes(0));
    }
    while i < level
        invariant
            i <= level,
            r@ == hashes(i as nat),
        decreases level - i,
    {
        r.push('#');
        i = i + 1;
    }
    r
}

fn next_level(level: usize) -> (r: usize)
    ensures
        r == deeper(level as nat),
{
    if level < 5 {
        level + 1
    } else {
        6
    }
}

/// Renders a value, taking out its media.
pub fn render(value: &Reflective, level: usize, here: &mut Vec<String>, marks: &Marks) -> (r: String)
    ensures
        r@ == rendered(
            value.deep_view(),
            level as nat,
            old(here)@.len(),
            marks.deep_view(),
        ).0,
        final(here).deep_view() == old(here).deep_view() + rendered(
            value.deep_view(),
            level as nat,
            old(here)@.len(),
            marks.deep_view(),
        ).1,
    decreases value,
{
    let ghost seen = here@.len();
    let ghost was = here.deep_view();
    match value {
        Reflective::Text(text) => {
            if marks.is_custom_type(text.as_str()) {
                append(here, text.clone());
                let mut r: String = "[IMAGE-".to_owned();
                r.append(decimal_text(here.len()).as_str());
                r.append(" - see visual content]\n\n");
                proof {
                    assert(here.deep_view() =~= was + seq![text@]);
                }
                r
            } else {
                let mut r: String = trim(text.as_str());
                r.append("\n\n");
                proof {
                    assert(was + Seq::<Seq<char>>::empty() =~= was);
                }
                r
            }
        },
        Reflective::Named(entries) => {
            let mut out: String = String::new();
            let mut i: usize = 0;
            let ghost model = entries.deep_view();
            proof {
                lemma_named(*entries);
                assert(out@ =~= Seq::<char>::empty());
                assert(was + Seq::<Seq<char>>::empty() =~= was);
            }
            while i < entries.len()
                invariant
                    i <= entries@.len(),
                    *value == Reflective::Named(*entries),
                    model == entries.deep_view(),
                    seen == was.len(),
                    out@ == rendered_parts(
                        model,
                        i as nat,
                        level as nat,
                        seen,
                        marks.deep_view(),
                    ).0,
                    here.deep_view() == was + rendered_parts(
                        model,
                        i as nat,
                        level as nat,
                        seen,
                        marks.deep_view(),
                    ).1,
                decreases entries@.len() - i,
            {
                let ghost media = rendered_parts(
                    model,
                    i as nat,
                    level as nat,
                    seen,
                    marks.deep_view(),
                ).1;
                let mut line: String = heading(level);
                line.append(" ");
                line.append(entries[i].0.as_str());
                line.append("\n");
                out.append(line.as_str());
                proof {
                    lemma_part_is_smaller(*value, *entries, i as int);
                    assert(here.deep_view().len() == here@.len());
                    assert(model[i as int] == (
                        entries@[i as int].0@,
                        entries@[i as int].1.deep_view(),
                    ));
                }
                let inner = render(&entries[i].1, next_level(level), here, marks);
                out.append(inner.as_str());
                proof {
                    let more = rendered(
                        model[i as int].1,
                        deeper(level as nat),
                        seen + media.len(),
                        marks.deep_view(),
                    ).1;
                    assert(was + media + more =~= was + (media + more));
                }
                i = i + 1;
            }
            if entries.len() == 0 {
                out.push('\n');
                proof {
                    reveal_strlit("\n");
                    assert(out@ =~= "\n"@);
                }
            }
            out
        },
        Reflective::List(items) => {
            let mut out: String = String::new();
            let mut i: usize = 0;
            let ghost model = items.deep_view();
            proof {
                lemma_list(*items);
                assert(out@ =~= Seq::<char>::empty());
                assert(was + Seq::<Seq<char>>::empty() =~= was);
            }
            while i < items.len()
                invariant
                    i <= items@.len(),
                    *value == Reflective::List(*items),
                    model == items.deep_view(),
                    seen == was.len(),
                    out@ == rendered_items(
                        model,
                        i as nat,
                        level as nat,
                        seen,
                        marks.deep_view(),
                    ).0,
                    here.deep_view() == was + rendered_items(
                        model,
                        i as nat,
                        level as nat,
                        seen,
                        marks.deep_view(),
                    ).1,
                decreases items@.len() - i,
            {
                let ghost media = rendered_items(
                    model,
                    i as nat,
                    level as nat,
                    seen,
                    marks.deep_view(),
                ).1;
                let mut line: String = heading(level);
                line.append(" Item ");
                line.append(decimal_text(i + 1).as_str());
                line.append("\n");
                out.append(line.as_str());
                proof {
                    lemma_item_is_smaller(*value, *items, i as int);
                    assert(here.deep_view().len() == here@.len());
                    assert(model[i as int] == items@[i as int].deep_view());
                }
                let inner = render(&items[i], next_level(level), here, marks);
                out.append(inner.as_str());
                proof {
                    let more = rendered(
                        model[i as int],
                        deeper(level as nat),
                        seen + media.len(),
                        marks.deep_view(),
                    ).1;
                    assert(was + media + more =~= was + (media + more));
                }
                i = i + 1;
            }
            if items.len() == 0 {
                out.push('\n');
                proof {
                    reveal_strlit("\n");
                    assert(out@ =~= "\n"@);
                }
            }
            out
        },
    }
}

fn format_example(
    sample: &ReflectiveSample,
    number: usize,
    here: &mut Vec<String>,
    marks: &Marks,
) -> (r: String)
    requires
        old(here)@.len() == 0,
    ensures
        r@ == example_text(sample.deep_view(), number as nat, marks.deep_view()),
        final(here).deep_view() == rendered_sections(
            sample.deep_view(),
            sample@.len(),
            marks.deep_view(),
        ).1,
{
    let mut text: String = "# Example ".to_owned();
    text.append(decimal_text(number).as_str());
    text.append("\n");
    let ghost head = text@;
    let ghost model = sample.deep_view();
    let mut i: usize = 0;
    proof {
        assert(head + Seq::<char>::empty() =~= head);
        assert(here.deep_view() =~= Seq::<Seq<char>>::empty());
    }
    while i < sample.len()
        invariant
            i <= sample@.len(),
            model == sample.deep_view(),
            text@ == head + rendered_sections(model, i as nat, marks.deep_view()).0,
            here.deep_view() == rendered_sections(model, i as nat, marks.deep_view()).1,
        decreases sample@.len() - i,
    {
        let ghost before = rendered_sections(model, i as nat, marks.deep_view());
        let mut line: String = "## ".to_owned();
        line.append(sample[i].0.as_str());
        line.append("\n");
        text.append(line.as_str());
        proof {
            assert(here.deep_view().len() == here@.len());
            assert(model[i as int] == (sample@[i as int].0@, sample@[i as int].1.deep_view()));
        }
        let inner = render(&sample[i].1, 3, here, marks);
        text.append(inner.as_str());
        proof {
            assert(head + before.0 + line@ + inner@ =~= head + (before.0 + line@ + inner@));
        }
        i = i + 1;
    }
    text
}

/// The examples as markdown, and every custom type they held, in the order they were met.
pub fn formatted(dataset: &ReflectiveDataset, marks: &Marks) -> (r: (String, Vec<String>))
    ensures
        r.0@ == dataset_text(dataset.deep_view(), marks.deep_view()),
        r.1.deep_view() == all_media(dataset.deep_view(), marks.deep_view()),
{
    let mut media: Vec<String> = Vec::new();
    let mut parts: Vec<String> = Vec::new();
    let ghost model = dataset.deep_view();
    let ghost texts = example_texts(model, marks.deep_view());
    let mut i: usize = 0;
    proof {
        assert(media.deep_view() =~= all_media(model.take(0), marks.deep_view()));
    }
    while i < dataset.len()
        invariant
            i <= dataset@.len(),
            model == dataset.deep_view(),
            texts == example_texts(model, marks.deep_view()),
            parts.deep_view() =~= texts.take(i as int),
            media.deep_view() == all_media(model.take(i as int), marks.deep_view()),
        decreases dataset@.len() - i,
    {
        let mut here: Vec<String> = Vec::new();
        let text = format_example(&dataset[i], i + 1, &mut here, marks);
        append(&mut parts, text);
        append_all(&mut media, &here);
        proof {
            assert(model.take(i + 1).drop_last() =~= model.take(i as int));
            assert(model.take(i + 1).last() == dataset@[i as int].deep_view());
        }
        i = i + 1;
    }
    proof {
        assert(model.take(i as int) =~= model);
        assert(texts.take(i as int) =~= texts);
    }
    let text = join(&parts, "\n\n");
    if media.len() == 0 {
        (text, media)
    } else {
        let mut whole: String = "The examples below include visual content (".to_owned();
        whole.append(decimal_text(media.len()).as_str());
        whole.append(
            " images total). Please analyze both the text and visual elements when suggesting improvements.\n\n",
        );
        whole.append(text.as_str());
        (whole, media)
    }
}

/// A text is shown without the white space around it, unless it is a custom type's serialized form:
/// that is taken out, and a numbered mark stands for it.
pub proof fn law_a_text_is_shown_or_taken_out(
    text: Seq<char>,
    level: nat,
    seen: nat,
    marks: MarksModel,
)
    ensures
        ({
            let (shown, media) = rendered(ReflectiveModel::Text(text), level, seen, marks);
            let (a, b, n) = (marks.start.len() as int, marks.end.len() as int, text.len() as int);
            if a <= n && b <= n && text.take(a) == marks.start && text.skip(n - b) == marks.end {
                &&& media == seq![text]
                &&& shown == "[IMAGE-"@ + decimal(seen + 1) + " - see visual content]\n\n"@
            } else {
                &&& media.len() == 0
                &&& shown == trimmed(text) + "\n\n"@
            }
        }),
{
}

proof fn lemma_hashes(level: nat)
    ensures
        hashes(level) == Seq::new(level, |i: int| '#'),
    decreases level,
{
    if level > 0 {
        lemma_hashes((level - 1) as nat);
    }
    assert(hashes(level) =~= Seq::new(level, |i: int| '#'));
}

/// Every named part is shown under its name, in order: one part more is a heading with its name and
/// the part, one level further in and never past the sixth, behind what was shown before.
pub proof fn law_every_named_part_is_shown(
    entries: Seq<(Seq<char>, ReflectiveModel)>,
    name: Seq<char>,
    value: ReflectiveModel,
    level: nat,
    seen: nat,
    marks: MarksModel,
)
    ensures
        ({
            let (text, media) = rendered(ReflectiveModel::Named(entries), level, seen, marks);
            let (inner, more) = rendered(
                value,
                if level < 5 {
                    level + 1
                } else {
                    6
                },
                seen + media.len(),
                marks,
            );
            let (shown, all) = rendered(
                ReflectiveModel::Named(entries.push((name, value))),
                level,
                seen,
                marks,
            );
            &&& entries.len() == 0 ==> text == "\n"@ && media.len() == 0
            &&& shown == (if entries.len() == 0 {
                Seq::empty()
            } else {
                text
            }) + Seq::new(level, |i: int| '#') + " "@ + name + "\n"@ + inner
            &&& all == media + more
        }),
{
    let longer = entries.push((name, value));
    lemma_hashes(level);
    lemma_earlier_parts(entries, (name, value), entries.len(), level, seen, marks);
    let (text, media) = rendered_parts(entries, entries.len(), level, seen, marks);
    assert(longer[entries.len() as int] == (name, value));
    let inner = rendered(value, deeper(level), seen + media.len(), marks).0;
    assert(text + (hashes(level) + " "@ + name + "\n"@) + inner =~= text + hashes(level) + " "@ + name
        + "\n"@ + inner);
}

proof fn lemma_earlier_parts(
    entries: Seq<(Seq<char>, ReflectiveModel)>,
    last: (Seq<char>, ReflectiveModel),
    n: nat,
    level: nat,
    seen: nat,
    marks: MarksModel,
)
    requires
        n <= entries.len(),
    ensures
        rendered_parts(entries.push(last), n, level, seen, marks) == rendered_parts(
            entries,
            n,
            level,
            seen,
            marks,
        ),
    decreases n,
{
    if n > 0 {
        lemma_earlier_parts(entries, last, (n - 1) as nat, level, seen, marks);
        assert(entries.push(last)[n - 1] == entries[n - 1]);
    }
}

/// Every item is shown under its number, in order, as a named part is under its name.
pub proof fn law_every_item_is_shown(
    items: Seq<ReflectiveModel>,
    value: ReflectiveModel,
    level: nat,
    seen: nat,
    marks: MarksModel,
)
    ensures
        ({
            let (text, media) = rendered(ReflectiveModel::List(items), level, seen, marks);
            let (inner, more) = rendered(
                value,
                if level < 5 {
                    level + 1
                } else {
                    6
                },
                seen + media.len(),
                marks,
            );
            let (shown, all) = rendered(
                ReflectiveModel::List(items.push(value)),
                level,
                seen,
                marks,
            );
            &&& items.len() == 0 ==> text == "\n"@ && media.len() == 0
            &&& shown == (if items.len() == 0 {
                Seq::empty()
            } else {
                text
            }) + Seq::new(level, |i: int| '#') + " Item "@ + decimal(items.len() + 1) + "\n"@ + inner
            &&& all == media + more
        }),
{
    let longer = items.push(value);
    lemma_hashes(level);
    lemma_earlier_items(items, value, items.len(), level, seen, marks);
    let (text, media) = rendered_items(items, items.len(), level, seen, marks);
    assert(longer[items.len() as int] == value);
    let inner = rendered(value, deeper(level), seen + media.len(), marks).0;
    assert(text + (hashes(level) + " Item "@ + decimal(items.len() + 1) + "\n"@) + inner =~= text
        + hashes(level) + " Item "@ + decimal(items.len() + 1) + "\n"@ + inner);
}

proof fn lemma_earlier_items(
    items: Seq<ReflectiveModel>,
    last: ReflectiveModel,
    n: nat,
    level: nat,
    seen: nat,
    marks: MarksModel,
)
    requires
        n <= items.len(),
    ensures
        rendered_items(items.push(last), n, level, seen, marks) == rendered_items(
            items,
            n,
            level,
            seen,
            marks,
        ),
    decreases n,
{
    if n > 0 {
        lemma_earlier_items(items, last, (n - 1) as nat, level, seen, marks);
        assert(items.push(last)[n - 1] == items[n - 1]);
    }
}

/// Every section of an example is shown under its heading, in order, and every example of a dataset
/// under its number, with all of their media.
pub proof fn law_every_section_and_example_is_shown(
    dataset: Seq<Seq<(Seq<char>, ReflectiveModel)>>,
    sample: Seq<(Seq<char>, ReflectiveModel)>,
    name: Seq<char>,
    value: ReflectiveModel,
    number: nat,
    marks: MarksModel,
)
    ensures
        ({
            let one = |s: Seq<(Seq<char>, ReflectiveModel)>| all_media(seq![s], marks);
            let longer = sample.push((name, value));
            let (inner, more) = rendered(value, 3, one(sample).len(), marks);
            let texts = example_texts(dataset, marks);
            let media = all_media(dataset, marks);
            &&& example_text(Seq::empty(), number, marks) == "# Example "@ + decimal(number) + "\n"@
            &&& example_text(longer, number, marks) == example_text(sample, number, marks) + "## "@
                + name + "\n"@ + inner
            &&& one(Seq::empty()).len() == 0
            &&& one(longer) == one(sample) + more
            &&& example_texts(dataset.push(sample), marks) == texts.push(
                example_text(sample, dataset.len() + 1, marks),
            )
            &&& all_media(dataset.push(sample), marks) == media + one(sample)
            &&& media.len() == 0 ==> dataset_text(dataset, marks) == joined(texts, "\n\n"@)
            &&& media.len() > 0 ==> dataset_text(dataset, marks)
                == "The examples below include visual content ("@ + decimal(media.len())
                + " images total). Please analyze both the text and visual elements when suggesting improvements.\n\n"@
                + joined(texts, "\n\n"@)
        }),
{
    let longer = sample.push((name, value));
    let none = Seq::<(Seq<char>, ReflectiveModel)>::empty();
    lemma_one_example(none, marks);
    lemma_one_example(sample, marks);
    lemma_one_example(longer, marks);
    lemma_earlier_sections(sample, (name, value), sample.len(), marks);
    assert(longer[sample.len() as int] == (name, value));
    let (text, found) = rendered_sections(sample, sample.len(), marks);
    let inner = rendered(value, 3, found.len(), marks).0;
    let head = "# Example "@ + decimal(number) + "\n"@;
    assert(head + (text + ("## "@ + name + "\n"@) + inner) =~= head + text + "## "@ + name + "\n"@
        + inner);
    assert(head + Seq::<char>::empty() =~= head);
    assert(dataset.push(sample).drop_last() =~= dataset);
    assert(example_texts(dataset.push(sample), marks) =~= example_texts(dataset, marks).push(
        example_text(sample, dataset.len() + 1, marks),
    ));
}

proof fn lemma_one_example(sample: Seq<(Seq<char>, ReflectiveModel)>, marks: MarksModel)
    ensures
        all_media(seq![sample], marks) == rendered_sections(sample, sample.len(), marks).1,
{
    let none = Seq::<Seq<(Seq<char>, ReflectiveModel)>>::empty();
    assert(seq![sample].drop_last() =~= none);
    assert(all_media(none, marks).len() == 0);
    assert(all_media(seq![sample], marks) =~= rendered_sections(sample, sample.len(), marks).1);
}

proof fn lemma_earlier_sections(
    sample: Seq<(Seq<char>, ReflectiveModel)>,
    last: (Seq<char>, ReflectiveModel),
    n: nat,
    marks: MarksModel,
)
    requires
        n <= sample.len(),
    ensures
        rendered_sections(sample.push(last), n, marks) == rendered_sections(sample, n, marks),
    decreases n,
{
    if n > 0 {
        lemma_earlier_sections(sample, last, (n - 1) as nat, marks);
        assert(sample.push(last)[n - 1] == sample[n - 1]);
    }
}

} // verus!
