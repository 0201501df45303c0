//! A candidate: the text of each component, and the way between it and a program.
use vstd::prelude::*;
use crate::duplicate::{append, Duplicate};
use crate::entries::{
    distinct, get, has, insert, law_an_absent_name_reads_as_nothing, law_every_entry_is_read_back,
    law_put_then_lookup, lemma_slot, lookup, put, slot,
};
use crate::program::{FlexModel, NamedFlex, PredictorModel, Program};
use crate::signature::{Signature, SignatureModel};
use crate::sorted::{ascending, file, filed, law_filing_keeps_the_order};
use crate::example::names_hold;
use crate::optimize::gepa::reflective::{ReflectiveDataset, ReflectiveModel};

verus! {

/// The text of each component, by name.
pub type Candidate = Vec<(String, String)>;

/// A program with each predictor's instruction taken from the candidate, where it names one.
pub open spec fn bound(
    program: Seq<PredictorModel>,
    candidate: Seq<(Seq<char>, Seq<char>)>,
) -> Seq<PredictorModel> {
    Seq::new(
        program.len(),
        |i: int|
            match lookup(candidate, program[i].name) {
                Some(instruction) => program[i].with_instructions(instruction),
                None => program[i],
            },
    )
}

/// Writes a candidate's instructions into a program.
pub fn set_instructions(student: &mut Program, candidate: &Candidate)
    ensures
        final(student).deep_view() == bound(old(student).deep_view(), candidate.deep_view()),
{
    let ghost was = student.deep_view();
    let ghost all = bound(was, candidate.deep_view());
    let mut i: usize = 0;
    while i < student.predictors.len()
        invariant
            i <= was.len(),
            student.deep_view().len() == was.len(),
            all == bound(was, candidate.deep_view()),
            forall|j: int|
                0 <= j < was.len() ==> student.deep_view()[j] == (if j < i {
                    all[j]
                } else {
                    was[j]
                }),
        decreases was.len() - i,
    {
        proof {
            assert(student.deep_view()[i as int] == student.predictors@[i as int].deep_view());
        }
        let name = student.predictors[i].name.clone();
        if let Some(instruction) = get(candidate, name.as_str()) {
            student.set_instruction(i, instruction.as_str());
        }
        i = i + 1;
    }
    proof {
        assert(student.deep_view() =~= all);
    }
}

/// Generated code with each source taken from the candidate, where it names one that parses.
pub open spec fn bound_sources(
    flexes: Seq<FlexModel>,
    candidate: Seq<(Seq<char>, Seq<char>)>,
    parses: Seq<bool>,
) -> Seq<FlexModel> {
    Seq::new(
        flexes.len(),
        |i: int|
            match lookup(candidate, flexes[i].name) {
                Some(source) => if parses[i] {
                    FlexModel { source, ..flexes[i] }
                } else {
                    flexes[i]
                },
                None => flexes[i],
            },
    )
}

/// Writes a candidate's sources into the generated code of a program. `parses` says of each piece
/// whether the source the candidate has for it can be bound; one that cannot is dropped.
pub fn bind_sources(flexes: &mut Vec<NamedFlex>, candidate: &Candidate, parses: &Vec<bool>)
    requires
        parses@.len() == old(flexes)@.len(),
    ensures
        final(flexes).deep_view() == bound_sources(
            old(flexes).deep_view(),
            candidate.deep_view(),
            parses@,
        ),
{
    let ghost was = flexes.deep_view();
    let ghost all = bound_sources(was, candidate.deep_view(), parses@);
    let mut i: usize = 0;
    while i < flexes.len()
        invariant
            i <= was.len(),
            flexes@.len() == was.len(),
            parses@.len() == was.len(),
            all == bound_sources(was, candidate.deep_view(), parses@),
            forall|j: int|
                0 <= j < was.len() ==> flexes.deep_view()[j] == (if j < i {
                    all[j]
                } else {
                    was[j]
                }),
        decreases was.len() - i,
    {
        let ghost before = flexes.deep_view();
        proof {
            assert(before[i as int] == flexes@[i as int].deep_view());
        }
        let name = flexes[i].name.clone();
        if let Some(source) = get(candidate, name.as_str()) {
            if parses[i] {
                flexes[i].source = source.clone();
                proof {
                    assert(flexes.deep_view() =~= before.update(
                        i as int,
                        FlexModel { source: source@, ..before[i as int] },
                    ));
                }
            }
        }
        i = i + 1;
    }
    proof {
        assert(flexes.deep_view() =~= all);
    }
}

/// The candidate a program stands for: the instruction of each predictor, by name.
pub open spec fn seed_of(program: Seq<PredictorModel>) -> Seq<(Seq<char>, Seq<char>)>
    decreases program.len(),
{
    if program.len() == 0 {
        Seq::empty()
    } else {
        put(
            seed_of(program.drop_last()),
            program.last().name,
            program.last().signature.instructions,
        )
    }
}

/// The candidate a search starts from.
pub fn seed_candidate(student: &Program) -> (r: Candidate)
    ensures
        r.deep_view() == seed_of(student.deep_view()),
{
    let mut r: Candidate = Vec::new();
    let ghost model = student.deep_view();
    let mut i: usize = 0;
    proof {
        assert(r.deep_view() =~= seed_of(model.take(0)));
    }
    while i < student.predictors.len()
        invariant
            i <= model.len(),
            model == student.deep_view(),
            r.deep_view() == seed_of(model.take(i as int)),
        decreases model.len() - i,
    {
        proof {
            assert(model.take(i + 1).drop_last() =~= model.take(i as int));
            assert(model.take(i + 1).last() == student.predictors@[i as int].deep_view());
        }
        insert(
            &mut r,
            student.predictors[i].name.clone(),
            student.predictors[i].signature.instructions.clone(),
        );
        i = i + 1;
    }
    proof {
        assert(model.take(i as int) =~= model);
    }
    r
}

/// The signature that goes by a component's name: that of the last predictor of that name.
pub open spec fn signature_under(program: Seq<PredictorModel>, name: Seq<char>) -> Option<
    SignatureModel,
>
    decreases program.len(),
{
    if program.len() == 0 {
        None
    } else if program.last().name == name {
        Some(program.last().signature)
    } else {
        signature_under(program.drop_last(), name)
    }
}

/// The components that are predictors, with their signatures, in the order they are named.
pub open spec fn reflected(program: Seq<PredictorModel>, components: Seq<Seq<char>>) -> Seq<
    (Seq<char>, SignatureModel),
>
    decreases components.len(),
{
    if components.len() == 0 {
        Seq::empty()
    } else {
        let before = reflected(program, components.drop_last());
        match signature_under(program, components.last()) {
            Some(signature) => before.push((components.last(), signature)),
            None => before,
        }
    }
}

fn find_signature(student: &Program, name: &str) -> (r: Option<Signature>)
    ensures
        r.deep_view() == signature_under(student.deep_view(), name@),
{
    let ghost model = student.deep_view();
    let mut i: usize = student.predictors.len();
    proof {
        assert(model.take(i as int) =~= model);
    }
    while i > 0
        invariant
            i <= model.len(),
            model == student.deep_view(),
            signature_under(model, name@) == signature_under(model.take(i as int), name@),
        decreases i,
    {
        proof {
            assert(model.take(i as int).drop_last() =~= model.take(i - 1));
            assert(model.take(i as int).last() == student.predictors@[i - 1].deep_view());
        }
        i = i - 1;
        if crate::text::same_text(student.predictors[i].name.as_str(), name) {
            return Some(student.predictors[i].signature.duplicate());
        }
    }
    None
}

/// The components that are predictors, with their signatures as the program holds them. A
/// component that is generated code has none, and is left out.
pub fn reflected_components(student: &Program, components: &Vec<String>) -> (r: Vec<
    (String, Signature),
>)
    ensures
        r.deep_view() == reflected(student.deep_view(), components.deep_view()),
{
    let mut r: Vec<(String, Signature)> = Vec::new();
    let ghost names = components.deep_view();
    let mut i: usize = 0;
    proof {
        assert(r.deep_view() =~= reflected(student.deep_view(), names.take(0)));
    }
    while i < components.len()
        invariant
            i <= components@.len(),
            names == components.deep_view(),
            r.deep_view() == reflected(student.deep_view(), names.take(i as int)),
        decreases components@.len() - i,
    {
        proof {
            assert(names.take(i + 1).drop_last() =~= names.take(i as int));
        }
        if let Some(signature) = find_signature(student, components[i].as_str()) {
            append(&mut r, (components[i].clone(), signature));
        }
        i = i + 1;
    }
    proof {
        assert(names.take(i as int) =~= names);
    }
    r
}

/// The pieces of generated code among the components to rewrite.
pub fn code_components(flexes: &Vec<String>, components: &Vec<String>) -> (r: Vec<String>)
    ensures
        r.deep_view() == flexes.deep_view().filter(
            |name: Seq<char>| components.deep_view().contains(name),
        ),
{
    let mut r: Vec<String> = Vec::new();
    let ghost names = flexes.deep_view();
    let ghost keep = |name: Seq<char>| components.deep_view().contains(name);
    let mut i: usize = 0;
    proof {
        reveal(Seq::filter);
        assert(r.deep_view() =~= names.take(0).filter(keep));
    }
    while i < flexes.len()
        invariant
            i <= flexes@.len(),
            names == flexes.deep_view(),
            keep == (|name: Seq<char>| components.deep_view().contains(name)),
            r.deep_view() == names.take(i as int).filter(keep),
        decreases flexes@.len() - i,
    {
        proof {
            assert(names.take(i + 1).drop_last() =~= names.take(i as int));
            reveal(Seq::filter);
        }
        if names_hold(components, flexes[i].as_str()) {
            append(&mut r, flexes[i].clone());
        }
        i = i + 1;
    }
    proof {
        assert(names.take(i as int) =~= names);
    }
    r
}

/// The datasets that hold anything, in the order of their components' names.
pub open spec fn usable(
    datasets: Seq<(Seq<char>, Seq<Seq<(Seq<char>, ReflectiveModel)>>)>,
) -> Seq<(Seq<char>, Seq<Seq<(Seq<char>, ReflectiveModel)>>)>
    decreases datasets.len(),
{
    if datasets.len() == 0 {
        Seq::empty()
    } else {
        let before = usable(datasets.drop_last());
        if datasets.last().1.len() == 0 {
            before
        } else {
            filed(before, datasets.last().0, datasets.last().1)
        }
    }
}

/// The datasets that hold anything, in the order of their components' names: a component whose
/// runs gave nothing to reflect on is not proposed for.
pub fn usable_datasets(datasets: Vec<(String, ReflectiveDataset)>) -> (r: Vec<
    (String, ReflectiveDataset),
>)
    ensures
        r.deep_view() == usable(datasets.deep_view()),
{
    let ghost model = datasets.deep_view();
    let mut r: Vec<(String, ReflectiveDataset)> = Vec::new();
    let mut rest = datasets;
    let ghost mut done: int = 0;
    proof {
        assert(r.deep_view() =~= usable(model.take(0)));
        assert(model.skip(0) =~= model);
    }
    while rest.len() > 0
        invariant
            0 <= done <= model.len(),
            rest.deep_view() == model.skip(done),
            r.deep_view() == usable(model.take(done)),
        decreases rest@.len(),
    {
        let ghost left = rest.deep_view();
        let (name, dataset) = rest.remove(0);
        proof {
            assert(rest.deep_view() =~= left.skip(1));
            assert(left.skip(1) =~= model.skip(done + 1));
            assert(left[0] == model[done]);
            assert(left[0] == (name@, dataset.deep_view()));
            assert(model.take(done + 1).drop_last() =~= model.take(done));
        }
        if dataset.len() > 0 {
            file(&mut r, name, dataset);
        }
        proof {
            done = done + 1;
        }
    }
    proof {
        assert(model.take(done) =~= model);
    }
    r
}

/// The new texts, those of the first list overwritten by the second where both name a component.
pub fn merged_texts(texts: Candidate, more: Candidate) -> (r: Candidate)
    ensures
        r.deep_view() == merged(texts.deep_view(), more.deep_view()),
{
    let mut r = texts;
    let ghost model = more.deep_view();
    let ghost first = r.deep_view();
    let mut i: usize = 0;
    proof {
        assert(merged(first, model.take(0)) == first);
    }
    while i < more.len()
        invariant
            i <= more@.len(),
            model == more.deep_view(),
            r.deep_view() == merged(first, model.take(i as int)),
        decreases more@.len() - i,
    {
        proof {
            assert(model.take(i + 1).drop_last() =~= model.take(i as int));
        }
        insert(&mut r, more[i].0.clone(), more[i].1.clone());
        i = i + 1;
    }
    proof {
        assert(model.take(i as int) =~= model);
    }
    r
}

/// [`put`] for each of `more`.
pub open spec fn merged(
    texts: Seq<(Seq<char>, Seq<char>)>,
    more: Seq<(Seq<char>, Seq<char>)>,
) -> Seq<(Seq<char>, Seq<char>)>
    decreases more.len(),
{
    if more.len() == 0 {
        texts
    } else {
        put(merged(texts, more.drop_last()), more.last().0, more.last().1)
    }
}

/// A program bound to its own candidate is unchanged, where no two predictors share a name.
pub proof fn law_binding_the_seed_changes_nothing(program: Seq<PredictorModel>)
    requires
        forall|i: int, j: int|
            0 <= i < j < program.len() ==> (#[trigger] program[i]).name != (
            #[trigger] program[j]).name,
    ensures
        bound(program, seed_of(program)) == program,
{
    assert forall|i: int| 0 <= i < program.len() implies #[trigger] bound(
        program,
        seed_of(program),
    )[i] == program[i] by {
        lemma_seed_holds(program, i);
    }
    assert(bound(program, seed_of(program)) =~= program);
}

proof fn lemma_seed_holds(program: Seq<PredictorModel>, i: int)
    requires
        forall|i: int, j: int|
            0 <= i < j < program.len() ==> (#[trigger] program[i]).name != (
            #[trigger] program[j]).name,
        0 <= i < program.len(),
    ensures
        lookup(seed_of(program), program[i].name) == Some(program[i].signature.instructions),
    decreases program.len(),
{
    let before = program.drop_last();
    let last = program.last();
    crate::entries::law_put_then_lookup(
        seed_of(before),
        last.name,
        last.signature.instructions,
        program[i].name,
    );
    if i < before.len() {
        lemma_seed_holds(before, i);
        assert(before[i] == program[i]);
        assert(program[i].name != program[program.len() - 1].name);
    }
}

/// Binding touches nothing but instructions, and only those the candidate names.
pub proof fn law_binding_writes_only_instructions(
    program: Seq<PredictorModel>,
    candidate: Seq<(Seq<char>, Seq<char>)>,
    i: int,
)
    requires
        0 <= i < program.len(),
    ensures
        bound(program, candidate).len() == program.len(),
        bound(program, candidate)[i] == program[i].with_instructions(
            bound(program, candidate)[i].signature.instructions,
        ),
        lookup(candidate, program[i].name) is None ==> bound(program, candidate)[i] == program[i],
{
}

/// A text the candidate holds under a predictor's name becomes that predictor's instruction, and a
/// source it holds under a piece's name becomes that piece's where it parses.
pub proof fn law_a_rewritten_text_reaches_what_it_names(
    program: Seq<PredictorModel>,
    flexes: Seq<FlexModel>,
    candidate: Seq<(Seq<char>, Seq<char>)>,
    parses: Seq<bool>,
    i: int,
    k: int,
)
    requires
        distinct(candidate),
        0 <= k < candidate.len(),
    ensures
        bound(program, candidate).len() == program.len(),
        0 <= i < program.len() && program[i].name == candidate[k].0 ==> bound(
            program,
            candidate,
        )[i].signature.instructions == candidate[k].1,
        bound_sources(flexes, candidate, parses).len() == flexes.len(),
        0 <= i < flexes.len() && flexes[i].name == candidate[k].0 && parses[i] ==> bound_sources(
            flexes,
            candidate,
            parses,
        )[i] == (FlexModel { source: candidate[k].1, ..flexes[i] }),
        0 <= i < flexes.len() && !parses[i] ==> bound_sources(flexes, candidate, parses)[i]
            == flexes[i],
        0 <= i < flexes.len() && lookup(candidate, flexes[i].name) is None ==> bound_sources(
            flexes,
            candidate,
            parses,
        )[i] == flexes[i],
{
    law_every_entry_is_read_back(candidate, k);
}

/// The candidate a search starts from has every predictor's own instruction under its name, where no
/// two share one, and nothing else.
pub proof fn law_the_seed_is_the_programs_own_instructions(program: Seq<PredictorModel>, i: int)
    requires
        forall|i: int, j: int|
            0 <= i < j < program.len() ==> (#[trigger] program[i]).name != (
            #[trigger] program[j]).name,
        0 <= i < program.len(),
    ensures
        seed_of(program).len() == program.len(),
        seed_of(program)[i] == (program[i].name, program[i].signature.instructions),
    decreases program.len(),
{
    let before = program.drop_last();
    let held = seed_of(before);
    let last = program.last();
    if before.len() > 0 {
        law_the_seed_is_the_programs_own_instructions(before, 0);
    }
    assert forall|j: int| 0 <= j < held.len() implies (#[trigger] held[j]).0 != last.name by {
        law_the_seed_is_the_programs_own_instructions(before, j);
        assert(before[j] == program[j]);
        assert(program[j].name != program[program.len() - 1].name);
    }
    law_an_absent_name_reads_as_nothing(held, last.name);
    if i < before.len() {
        law_the_seed_is_the_programs_own_instructions(before, i);
    }
}

/// A component that a predictor goes by is reflected on under the signature of the last predictor of
/// that name, in the order the components are named. Any other component is passed over.
pub proof fn law_every_named_predictor_is_reflected_on(
    program: Seq<PredictorModel>,
    components: Seq<Seq<char>>,
    name: Seq<char>,
    p: int,
)
    ensures
        reflected(program, Seq::empty()).len() == 0,
        0 <= p < program.len() && program[p].name == name && (forall|q: int|
            p < q < program.len() ==> (#[trigger] program[q]).name != name) ==> reflected(
            program,
            components.push(name),
        ) == reflected(program, components).push((name, program[p].signature)),
        (forall|q: int| 0 <= q < program.len() ==> (#[trigger] program[q]).name != name)
            ==> reflected(program, components.push(name)) == reflected(program, components),
{
    assert(components.push(name).drop_last() =~= components);
    if 0 <= p < program.len() && program[p].name == name && forall|q: int|
        p < q < program.len() ==> (#[trigger] program[q]).name != name {
        lemma_signature_under(program, name, p);
    }
    if forall|q: int| 0 <= q < program.len() ==> (#[trigger] program[q]).name != name {
        lemma_no_signature_under(program, name);
    }
}

proof fn lemma_signature_under(program: Seq<PredictorModel>, name: Seq<char>, p: int)
    requires
        0 <= p < program.len(),
        program[p].name == name,
        forall|q: int| p < q < program.len() ==> (#[trigger] program[q]).name != name,
    ensures
        signature_under(program, name) == Some(program[p].signature),
    decreases program.len(),
{
    if p < program.len() - 1 {
        let before = program.drop_last();
        assert(program[program.len() - 1].name != name);
        assert forall|q: int| p < q < before.len() implies (#[trigger] before[q]).name != name by {
            assert(before[q] == program[q]);
        }
        lemma_signature_under(before, name, p);
    }
}

proof fn lemma_no_signature_under(program: Seq<PredictorModel>, name: Seq<char>)
    requires
        forall|q: int| 0 <= q < program.len() ==> (#[trigger] program[q]).name != name,
    ensures
        signature_under(program, name) is None,
    decreases program.len(),
{
    if program.len() > 0 {
        let before = program.drop_last();
        assert(program[program.len() - 1].name != name);
        assert forall|q: int| 0 <= q < before.len() implies (#[trigger] before[q]).name != name by {
            assert(before[q] == program[q]);
        }
        lemma_no_signature_under(before, name);
    }
}

/// A dataset that holds anything can be proposed from, under its component's name, whatever the
/// other components have; one that holds nothing changes nothing.
pub proof fn law_a_dataset_with_records_is_usable(
    datasets: Seq<(Seq<char>, Seq<Seq<(Seq<char>, ReflectiveModel)>>)>,
    name: Seq<char>,
    dataset: Seq<Seq<(Seq<char>, ReflectiveModel)>>,
    other: Seq<char>,
)
    ensures
        usable(Seq::empty()).len() == 0,
        dataset.len() == 0 ==> usable(datasets.push((name, dataset))) == usable(datasets),
        dataset.len() > 0 ==> lookup(usable(datasets.push((name, dataset))), name) == Some(dataset),
        other != name ==> lookup(usable(datasets.push((name, dataset))), other) == lookup(
            usable(datasets),
            other,
        ),
        ascending(usable(datasets)),
    decreases datasets.len(),
{
    assert(datasets.push((name, dataset)).drop_last() =~= datasets);
    if datasets.len() > 0 {
        let before = datasets.drop_last();
        let last = datasets.last();
        law_a_dataset_with_records_is_usable(before, name, dataset, other);
        if last.1.len() > 0 {
            law_filing_keeps_the_order(usable(before), last.0, last.1, other);
        }
    }
    if dataset.len() > 0 {
        law_filing_keeps_the_order(usable(datasets), name, dataset, other);
    }
}

/// Of two lists of texts, the second's is read where both name a component, and the only one's
/// where one does.
pub proof fn law_later_texts_win(
    texts: Seq<(Seq<char>, Seq<char>)>,
    more: Seq<(Seq<char>, Seq<char>)>,
    name: Seq<char>,
)
    requires
        distinct(more),
    ensures
        lookup(merged(texts, more), name) == match lookup(more, name) {
            Some(text) => Some(text),
            None => lookup(texts, name),
        },
    decreases more.len(),
{
    if more.len() > 0 {
        let before = more.drop_last();
        let last = more.last();
        assert forall|i: int, j: int| 0 <= i < j < before.len() implies (#[trigger] before[i]).0
            != (#[trigger] before[j]).0 by {
            assert(more[i].0 != more[j].0);
        }
        law_later_texts_win(texts, before, name);
        law_put_then_lookup(merged(texts, before), last.0, last.1, name);
        lemma_slot(before, name);
        lemma_slot(more, name);
        if last.0 == name {
            law_every_entry_is_read_back(more, more.len() - 1);
        } else if has(before, name) {
            let at = slot(before, name);
            assert(more[at] == before[at]);
            law_every_entry_is_read_back(more, at);
        } else {
            if has(more, name) {
                let at = slot(more, name);
                assert(at < before.len());
                assert(before[at].0 == name);
            }
        }
    } else {
        lemma_slot(more, name);
    }
}

} // verus!
