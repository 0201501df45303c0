//! Maps that keep the order their names were first written in, as lists of named entries.
use vstd::prelude::*;
use crate::duplicate::append;
use crate::text::same_text;

verus! {

/// Where `name` first stands among the entries, or their number where it does not.
pub open spec fn slot<V>(entries: Seq<(Seq<char>, V)>, name: Seq<char>) -> int
    decreases entries.len(),
{
    if entries.len() == 0 || entries[0].0 == name {
        0
    } else {
        1 + slot(entries.skip(1), name)
    }
}

/// Whether an entry goes by `name`.
pub open spec fn has<V>(entries: Seq<(Seq<char>, V)>, name: Seq<char>) -> bool {
    slot(entries, name) < entries.len()
}

/// What stands under `name`.
pub open spec fn lookup<V>(entries: Seq<(Seq<char>, V)>, name: Seq<char>) -> Option<V> {
    if has(entries, name) {
        Some(entries[slot(entries, name)].1)
    } else {
        None
    }
}

/// The entries with `value` under `name`: in the place `name` already had, or else at the end.
pub open spec fn put<V>(entries: Seq<(Seq<char>, V)>, name: Seq<char>, value: V) -> Seq<
    (Seq<char>, V),
> {
    if has(entries, name) {
        entries.update(slot(entries, name), (name, value))
    } else {
        entries.push((name, value))
    }
}

/// Whether no name stands twice.
pub open spec fn distinct<V>(entries: Seq<(Seq<char>, V)>) -> bool {
    forall|i: int, j: int|
        0 <= i < j < entries.len() ==> (#[trigger] entries[i]).0 != (#[trigger] entries[j]).0
}

/// The slot of a name is in range, holds the name where it stands, and is its first place.
pub proof fn lemma_slot<V>(entries: Seq<(Seq<char>, V)>, name: Seq<char>)
    ensures
        0 <= slot(entries, name) <= entries.len(),
        has(entries, name) ==> entries[slot(entries, name)].0 == name,
        forall|j: int| 0 <= j < slot(entries, name) ==> (#[trigger] entries[j]).0 != name,
    decreases entries.len(),
{
    if entries.len() == 0 || entries[0].0 == name {
    } else {
        let rest = entries.skip(1);
        lemma_slot(rest, name);
        assert forall|j: int| 0 <= j < slot(entries, name) implies (#[trigger] entries[j]).0
            != name by {
            if j > 0 {
                assert(rest[j - 1] == entries[j]);
            }
        }
    }
}

/// A place that holds the name with none before it is the name's slot.
pub proof fn lemma_slot_unique<V>(entries: Seq<(Seq<char>, V)>, name: Seq<char>, at: int)
    requires
        0 <= at <= entries.len(),
        at < entries.len() ==> entries[at].0 == name,
        forall|j: int| 0 <= j < at ==> (#[trigger] entries[j]).0 != name,
    ensures
        slot(entries, name) == at,
{
    lemma_slot(entries, name);
}

/// A write is what the next read under the same name gives back, and leaves every other name's
/// entry as it was.
pub proof fn law_put_then_lookup<V>(
    entries: Seq<(Seq<char>, V)>,
    name: Seq<char>,
    value: V,
    other: Seq<char>,
)
    ensures
        lookup(put(entries, name, value), name) == Some(value),
        other != name ==> lookup(put(entries, name, value), other) == lookup(entries, other),
{
    let written = put(entries, name, value);
    lemma_slot(entries, name);
    lemma_slot(entries, other);
    lemma_slot_unique(written, name, slot(entries, name));
    if other != name {
        if has(entries, other) {
            lemma_slot_unique(written, other, slot(entries, other));
        } else {
            lemma_slot_unique(written, other, written.len() as int);
        }
    }
}

/// Writing an entry keeps names from standing twice.
pub proof fn law_put_keeps_distinct<V>(entries: Seq<(Seq<char>, V)>, name: Seq<char>, value: V)
    requires
        distinct(entries),
    ensures
        distinct(put(entries, name, value)),
{
    lemma_slot(entries, name);
}

/// A read finds a name exactly where an entry goes by it, and gives what the first such entry holds.
pub proof fn law_a_read_finds_the_first_of_its_name<V>(
    entries: Seq<(Seq<char>, V)>,
    name: Seq<char>,
    i: int,
)
    requires
        0 <= i < entries.len(),
        entries[i].0 == name,
        forall|j: int| 0 <= j < i ==> (#[trigger] entries[j]).0 != name,
    ensures
        has(entries, name),
        lookup(entries, name) == Some(entries[i].1),
{
    lemma_slot_unique(entries, name, i);
}

/// A name that no entry goes by reads as nothing.
pub proof fn law_an_absent_name_reads_as_nothing<V>(entries: Seq<(Seq<char>, V)>, name: Seq<char>)
    requires
        forall|j: int| 0 <= j < entries.len() ==> (#[trigger] entries[j]).0 != name,
    ensures
        has(entries, name) == false,
        lookup(entries, name) is None,
{
    lemma_slot_unique(entries, name, entries.len() as int);
}

/// Where names stand once each, every entry is what its name reads as.
pub proof fn law_every_entry_is_read_back<V>(entries: Seq<(Seq<char>, V)>, i: int)
    requires
        distinct(entries),
        0 <= i < entries.len(),
    ensures
        lookup(entries, entries[i].0) == Some(entries[i].1),
{
    law_a_read_finds_the_first_of_its_name(entries, entries[i].0, i);
}

/// A write leaves the names in their places: a new one comes last, and nothing else moves.
pub proof fn law_put_keeps_the_places<V>(
    entries: Seq<(Seq<char>, V)>,
    name: Seq<char>,
    value: V,
    i: int,
)
    requires
        0 <= i < entries.len(),
    ensures
        put(entries, name, value)[i].0 == entries[i].0,
        entries[i].0 != name ==> put(entries, name, value)[i] == entries[i],
        put(entries, name, value).len() <= entries.len() + 1,
        put(entries, name, value).len() == entries.len() + 1 ==> put(entries, name, value).last()
            == (name, value),
        (forall|j: int| 0 <= j < entries.len() ==> (#[trigger] entries[j]).0 != name) ==> put(
            entries,
            name,
            value,
        ) == entries.push((name, value)),
        entries[i].0 == name ==> put(entries, name, value).len() == entries.len(),
{
    lemma_slot(entries, name);
}

/// [`slot`], found.
pub fn find<T: DeepView>(entries: &Vec<(String, T)>, name: &str) -> (r: usize)
    ensures
        r == slot(entries.deep_view(), name@),
{
    let mut i: usize = 0;
    while i < entries.len()
        invariant
            i <= entries@.len(),
            forall|j: int| 0 <= j < i ==> (#[trigger] entries.deep_view()[j]).0 != name@,
        decreases entries@.len() - i,
    {
        if same_text(entries[i].0.as_str(), name) {
            proof {
                lemma_slot_unique(entries.deep_view(), name@, i as int);
            }
            return i;
        }
        i = i + 1;
    }
    proof {
        lemma_slot_unique(entries.deep_view(), name@, i as int);
    }
    i
}

/// [`lookup`], found.
pub fn get<'a, T: DeepView>(entries: &'a Vec<(String, T)>, name: &str) -> (r: Option<&'a T>)
    ensures
        match r {
            Some(value) => lookup(entries.deep_view(), name@) == Some(value.deep_view()),
            None => lookup(entries.deep_view(), name@) is None,
        },
{
    let at: usize = find(entries, name);
    if at < entries.len() {
        Some(&entries[at].1)
    } else {
        None
    }
}

/// Writes `value` under `name`.
pub fn insert<T: DeepView>(entries: &mut Vec<(String, T)>, name: String, value: T)
    ensures
        final(entries).deep_view() == put(old(entries).deep_view(), name@, value.deep_view()),
{
    let at: usize = find(entries, name.as_str());
    proof {
        lemma_slot(entries.deep_view(), name@);
    }
    if at < entries.len() {
        entries[at] = (name, value);
        proof {
            assert(entries.deep_view() =~= old(entries).deep_view().update(
                at as int,
                (name@, value.deep_view()),
            ));
        }
    } else {
        append(entries, (name, value));
    }
}

/// Two tests that agree leave the same of a list.
pub proof fn lemma_tests_that_agree<T>(
    items: Seq<T>,
    one: spec_fn(T) -> bool,
    other: spec_fn(T) -> bool,
)
    requires
        forall|k: int| 0 <= k < items.len() ==> one(#[trigger] items[k]) == other(items[k]),
    ensures
        items.filter(one) == items.filter(other),
    decreases items.len(),
{
    reveal(Seq::filter);
    if items.len() > 0 {
        let before = items.drop_last();
        assert forall|k: int| 0 <= k < before.len() implies one(#[trigger] before[k]) == other(
            before[k],
        ) by {
            assert(before[k] == items[k]);
        }
        lemma_tests_that_agree(before, one, other);
        assert(one(items[items.len() - 1]) == other(items[items.len() - 1]));
    }
}

/// A test that everything passes leaves a list as it is.
pub proof fn lemma_everything_passes<T>(items: Seq<T>, keep: spec_fn(T) -> bool)
    requires
        forall|k: int| 0 <= k < items.len() ==> keep(#[trigger] items[k]),
    ensures
        items.filter(keep) == items,
    decreases items.len(),
{
    reveal(Seq::filter);
    if items.len() > 0 {
        let before = items.drop_last();
        assert forall|k: int| 0 <= k < before.len() implies keep(#[trigger] before[k]) by {
            assert(before[k] == items[k]);
        }
        lemma_everything_passes(before, keep);
        assert(keep(items[items.len() - 1]));
        assert(before.push(items.last()) =~= items);
    } else {
        assert(items.filter(keep) =~= items);
    }
}

} // verus!
